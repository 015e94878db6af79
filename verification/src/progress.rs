//! Texts shown while a backup runs: byte counts in human units, the label
//! of the file being compressed, and the names of archive entries.
use vstd::prelude::*;
use vstd::arithmetic::power2::{pow2, lemma_pow2_unfold, lemma_pow2_pos};
use vstd::arithmetic::div_mod::{lemma_fundamental_div_mod, lemma_div_is_ordered_by_denominator};
use crate::text::{chars_of, decimal, find_char_between, index_of_first,
    push_char, push_decimal, string_from_chars};

verus! {

/// `n / d` rounded to the nearest integer, ties to the even one.
pub open spec fn round_half_even(n: nat, d: nat) -> nat {
    let q = n / d;
    let r = n % d;
    if 2 * r > d || (2 * r == d && q % 2 == 1) {
        q + 1
    } else {
        q
    }
}

/// The number of low bits, counted from `s` on, that an `f64` cannot keep
/// of `n < 2^64`: the least `s <= 11` with `n < 2^(53 + s)`.
pub open spec fn float_shift_from(n: nat, s: nat) -> nat
    decreases 11 - s,
{
    if s >= 11 || n < 9007199254740992 * pow2(s) {
        s
    } else {
        float_shift_from(n, s + 1)
    }
}

/// The number that `n as f64` holds: `n` rounded to 53 significant bits,
/// ties to even.
pub open spec fn as_f64(n: nat) -> nat {
    let p = pow2(float_shift_from(n, 0));
    round_half_even(n, p) * p
}

/// The unit a byte count is shown in: 0 for B, 1 for KB, 2 for MB, 3 for GB.
pub open spec fn byte_unit(n: nat) -> nat {
    if n < 1024 {
        0
    } else if n < 1048576 {
        1
    } else if n < 1073741824 {
        2
    } else {
        3
    }
}

/// The size of a unit, in bytes.
pub open spec fn unit_size(u: nat) -> nat {
    if u == 0 {
        1
    } else if u == 1 {
        1024
    } else if u == 2 {
        1048576
    } else {
        1073741824
    }
}

/// The name of a unit.
pub open spec fn unit_name(u: nat) -> Seq<char> {
    if u == 0 {
        "B"@
    } else if u == 1 {
        "KB"@
    } else if u == 2 {
        "MB"@
    } else {
        "GB"@
    }
}

/// A byte count in the largest unit (up to GB) that it reaches: whole
/// units for bytes and from ten units on, else one decimal; the number
/// shown is the count as an `f64`, divided and rounded to nearest, ties to
/// even.
pub open spec fn format_bytes_spec(bytes: nat) -> Seq<char> {
    let u = byte_unit(bytes);
    let d = unit_size(u);
    let v = as_f64(bytes);
    if u == 0 || bytes >= 10 * d {
        decimal(round_half_even(v, d)) + " "@ + unit_name(u)
    } else {
        let t = round_half_even(10 * v, d);
        decimal(t / 10) + "."@ + decimal(t % 10) + " "@ + unit_name(u)
    }
}

fn round_half_even_exec(n: u128, d: u128) -> (res: u128)
    requires
        d > 0,
        n < 0x1_0000_0000_0000_0000_0000_0000_0000,
    ensures
        res == round_half_even(n as nat, d as nat),
        res <= n / d + 1,
{
    let q = n / d;
    let r = n % d;
    if r > d - r || (r == d - r && q % 2 == 1) {
        q + 1
    } else {
        q
    }
}

proof fn lemma_round_bound(n: nat, d: nat)
    requires
        d > 0,
    ensures
        round_half_even(n, d) * d <= n + d,
{
    lemma_fundamental_div_mod(n as int, d as int);
    let q = n / d;
    let r = n % d;
    assert(q * d <= n) by (nonlinear_arith)
        requires
            n == d * q + r,
            r >= 0,
    ;
    assert((q + 1) * d == q * d + d) by (nonlinear_arith);
}

/// The number that `n as f64` holds.
fn f64_value(n: u64) -> (v: u128)
    ensures
        v == as_f64(n as nat),
        v <= 0x1_0000_0000_0000_0800,
        n < 9007199254740992 ==> v == n,
{
    let mut s: u64 = 0;
    let mut p: u128 = 1;
    proof {
        vstd::arithmetic::power2::lemma2_to64();
    }
    while s < 11 && (n as u128) >= 9007199254740992u128 * p
        invariant
            s <= 11,
            p == pow2(s as nat),
            p <= 2048,
            float_shift_from(n as nat, 0) == float_shift_from(n as nat, s as nat),
        decreases 11 - s,
    {
        proof {
            lemma_pow2_unfold((s + 1) as nat);
            vstd::arithmetic::power2::lemma2_to64();
            if s + 1 <= 11 {
                lemma_pow2_at_most_2048((s + 1) as nat);
            }
        }
        s = s + 1;
        p = p * 2;
    }
    proof {
        lemma_pow2_pos(s as nat);
        lemma_round_bound(n as nat, p as nat);
        if n < 9007199254740992 {
            assert(s == 0);
            assert((n as nat) / 1 == n as nat);
            assert((n as nat) % 1 == 0);
            assert(round_half_even(n as nat, 1) == n);
        }
    }
    let q = round_half_even_exec(n as u128, p);
    proof {
        assert(q * p <= n + p);
    }
    q * p
}

proof fn lemma_pow2_at_most_2048(s: nat)
    requires
        s <= 11,
    ensures
        pow2(s) <= 2048,
{
    vstd::arithmetic::power2::lemma2_to64();
    assert(s == 0 || s == 1 || s == 2 || s == 3 || s == 4 || s == 5 || s == 6 || s == 7 || s == 8
        || s == 9 || s == 10 || s == 11);
}

fn unit_text(u: u64) -> (res: &'static str)
    requires
        u <= 3,
    ensures
        res@ == unit_name(u as nat),
{
    if u == 0 {
        "B"
    } else if u == 1 {
        "KB"
    } else if u == 2 {
        "MB"
    } else {
        "GB"
    }
}

/// A byte count in a human unit, such as `1.5 KB` or `12 MB`.
pub fn format_bytes(bytes: u64) -> (res: String)
    ensures
        res@ == format_bytes_spec(bytes as nat),
{
    let u: u64 = if bytes < 1024 {
        0
    } else if bytes < 1048576 {
        1
    } else if bytes < 1073741824 {
        2
    } else {
        3
    };
    let d: u128 = if u == 0 {
        1
    } else if u == 1 {
        1024
    } else if u == 2 {
        1048576
    } else {
        1073741824
    };
    let v = f64_value(bytes);
    let mut res = String::new();
    if u == 0 || (bytes as u128) >= 10 * d {
        let r = round_half_even_exec(v, d);
        proof {
            if u != 0 {
                lemma_div_is_ordered_by_denominator(v as int, 1024, d as int);
            }
        }
        push_decimal(&mut res, r as u64);
    } else {
        let t = round_half_even_exec(10 * v, d);
        proof {
            lemma_div_is_ordered_by_denominator((10 * v) as int, 1024, d as int);
        }
        push_decimal(&mut res, (t / 10) as u64);
        push_char(&mut res, '.');
        push_decimal(&mut res, (t % 10) as u64);
    }
    push_char(&mut res, ' ');
    res.append(unit_text(u));
    proof {
        reveal_strlit(" ");
        reveal_strlit(".");
        assert(res@ =~= format_bytes_spec(bytes as nat));
    }
    res
}

/// `s` with every backslash turned into a slash.
pub open spec fn normalize_separators(s: Seq<char>) -> Seq<char> {
    s.map_values(|c: char| if c == '\\' { '/' } else { c })
}

/// The index just after the last `x` in `s`, or 0 when there is none.
pub open spec fn index_after_last<T>(s: Seq<T>, x: T) -> nat
    decreases s.len(),
{
    if s.len() == 0 {
        0
    } else if s.last() == x {
        s.len()
    } else {
        index_after_last(s.drop_last(), x)
    }
}

proof fn lemma_index_after_last_unique<T>(s: Seq<T>, x: T, k: int)
    requires
        0 <= k <= s.len(),
        k > 0 ==> s[k - 1] == x,
        forall|j: int| k <= j < s.len() ==> s[j] != x,
    ensures
        index_after_last(s, x) == k,
    decreases s.len(),
{
    if s.len() > 0 && k < s.len() {
        assert(s.last() != x);
        assert forall|j: int| k <= j < s.drop_last().len() implies s.drop_last()[j] != x by {
            assert(s.drop_last()[j] == s[j]);
        }
        lemma_index_after_last_unique(s.drop_last(), x, k);
    }
}

/// The label shown while the file at `relative` (world folder first) is
/// compressed: `Compactando <world>`, and ` / <file>` after it when the last
/// path segment is not empty and differs from the world.
pub open spec fn progress_label_spec(relative: Seq<char>) -> Seq<char> {
    let n = normalize_separators(relative);
    let world = n.take(index_of_first(n, '/') as int);
    let last = n.skip(index_after_last(n, '/') as int);
    let file = if last.len() == 0 {
        world
    } else {
        last
    };
    if world == file {
        "Compactando "@ + world
    } else {
        "Compactando "@ + world + " / "@ + file
    }
}

/// `s` with every backslash turned into a slash, as characters.
fn normalized_chars(s: &str) -> (res: Vec<char>)
    ensures
        res@ == normalize_separators(s@),
{
    let cs = chars_of(s);
    let mut res: Vec<char> = Vec::new();
    let mut i: usize = 0;
    while i < cs.len()
        invariant
            cs@ == s@,
            i <= cs@.len(),
            res@ == normalize_separators(cs@.take(i as int)),
        decreases cs.len() - i,
    {
        let c = cs[i];
        res.push(if c == '\\' {
            '/'
        } else {
            c
        });
        i = i + 1;
        assert(res@ =~= normalize_separators(cs@.take(i as int)));
    }
    assert(cs@.take(cs@.len() as int) =~= cs@);
    res
}

/// `relative` with every backslash turned into a slash: the name of its
/// entry in the archive.
pub fn archive_entry_name(relative: &str) -> (res: String)
    ensures
        res@ == normalize_separators(relative@),
{
    let cs = normalized_chars(relative);
    let res = string_from_chars(&cs, 0, cs.len());
    assert(cs@.subrange(0, cs@.len() as int) =~= cs@);
    res
}

/// The directory entry added to the archive for a folder at `relative`
/// (already normalized): `relative/`, or none for the root itself.
pub fn archive_directory_entry(relative: &str) -> (res: Option<String>)
    ensures
        relative@.len() == 0 ==> res is None,
        relative@.len() > 0 ==> (res matches Some(e) && e@ == relative@ + seq!['/']),
{
    if relative.is_empty() {
        None
    } else {
        let mut e = String::from_str(relative);
        push_char(&mut e, '/');
        Some(e)
    }
}

/// The progress label for the file at `relative`.
pub fn progress_label(relative: &str) -> (res: String)
    ensures
        res@ == progress_label_spec(relative@),
{
    let n = normalized_chars(relative);
    let len = n.len();
    let slash = find_char_between(&n, '/', 0, len);
    let mut last = len;
    while last > 0 && n[last - 1] != '/'
        invariant
            last <= len == n@.len(),
            forall|j: int| last <= j < len ==> n@[j] != '/',
        decreases last,
    {
        last = last - 1;
    }
    proof {
        lemma_index_after_last_unique(n@, '/', last as int);
        assert(n@.subrange(0, len as int) =~= n@);
        assert(n@.take(slash as int) =~= n@.subrange(0, slash as int));
        assert(n@.skip(last as int) =~= n@.subrange(last as int, len as int));
    }
    let world = string_from_chars(&n, 0, slash);
    let file = if last == len {
        string_from_chars(&n, 0, slash)
    } else {
        string_from_chars(&n, last, len)
    };
    let mut res = String::from_str("Compactando ");
    res.append(world.as_str());
    if world != file {
        res.append(" / ");
        res.append(file.as_str());
    }
    res
}

/// The label shown while the archive is sent: `Enviando <sent> de <total>`.
pub fn upload_progress_label(uploaded: u64, total: u64) -> (res: String)
    ensures
        res@ == "Enviando "@ + format_bytes_spec(uploaded as nat) + " de "@ + format_bytes_spec(
            total as nat,
        ),
{
    let mut res = String::from_str("Enviando ");
    res.append(format_bytes(uploaded).as_str());
    res.append(" de ");
    res.append(format_bytes(total).as_str());
    res
}

proof fn lemma_as_f64_exact(n: nat)
    requires
        n < 9007199254740992,
    ensures
        as_f64(n) == n,
{
    vstd::arithmetic::power2::lemma2_to64();
    assert(float_shift_from(n, 0) == 0);
    assert(n / 1 == n);
    assert(n % 1 == 0);
}

/// A whole number of units is shown as that number: for a unit of KB, MB
/// or GB and `k` from 10 on (below 1024 for KB and MB), `k` units of bytes
/// are shown as `<k> <unit>`.
pub proof fn law_format_bytes_whole_units(k: nat, u: nat)
    requires
        1 <= u <= 3,
        10 <= k,
        u < 3 ==> k < 1024,
        k * unit_size(u) < 9007199254740992,
    ensures
        format_bytes_spec(k * unit_size(u)) == decimal(k) + " "@ + unit_name(u),
{
    let d = unit_size(u);
    let n = k * d;
    lemma_as_f64_exact(n);
    assert(n / d == k && n % d == 0) by {
        vstd::arithmetic::div_mod::lemma_div_multiples_vanish(k as int, d as int);
        vstd::arithmetic::div_mod::lemma_mod_multiples_basic(k as int, d as int);
    }
    assert(byte_unit(n) == u);
    assert(n >= 10 * d);
    assert(round_half_even(n, d) == k);
}

/// A byte count below 1024 is shown in bytes, as itself.
pub proof fn law_format_bytes_small(n: nat)
    requires
        n < 1024,
    ensures
        format_bytes_spec(n) == decimal(n) + " "@ + "B"@,
{
    lemma_as_f64_exact(n);
    assert(n / 1 == n);
    assert(n % 1 == 0);
}


/// The label names the world (the text before the first slash of the
/// path, backslashes read as slashes) and the file (the text after the
/// last slash, which holds no slash): `Compactando <world> / <file>`
/// when the file part is not empty and differs from the world.
pub proof fn law_progress_label_shows_world_and_last_segment(
    relative: Seq<char>,
    first: int,
    last: int,
)
    requires
        0 <= first <= last < normalize_separators(relative).len(),
        normalize_separators(relative)[first] == '/',
        normalize_separators(relative)[last] == '/',
        forall|j: int| 0 <= j < first ==> normalize_separators(relative)[j] != '/',
        forall|j: int|
            last < j < normalize_separators(relative).len() ==> normalize_separators(relative)[j]
                != '/',
    ensures
        ({
            let n = normalize_separators(relative);
            let world = n.take(first);
            let file = n.skip(last + 1);
            &&& forall|j: int| 0 <= j < file.len() ==> file[j] != '/'
            &&& file.len() > 0 && file != world ==> progress_label_spec(relative) == "Compactando "@
                + world + " / "@ + file
            &&& file.len() == 0 || file == world ==> progress_label_spec(relative) == "Compactando "@
                + world
        }),
{
    let n = normalize_separators(relative);
    crate::text::lemma_index_of_first_unique(n, '/', first);
    lemma_index_after_last_unique(n, '/', last + 1);
    let file = n.skip(last + 1);
    assert forall|j: int| 0 <= j < file.len() implies file[j] != '/' by {
        assert(file[j] == n[last + 1 + j]);
    }
}

/// A path without a slash (after backslashes are read as slashes) is
/// labelled with itself as the world: `Compactando <path>`.
pub proof fn law_progress_label_of_a_bare_name(relative: Seq<char>)
    requires
        forall|j: int|
            0 <= j < normalize_separators(relative).len() ==> normalize_separators(relative)[j]
                != '/',
    ensures
        progress_label_spec(relative) == "Compactando "@ + normalize_separators(relative),
{
    let n = normalize_separators(relative);
    crate::text::lemma_index_of_first_unique(n, '/', n.len() as int);
    lemma_index_after_last_unique(n, '/', 0);
    assert(n.take(n.len() as int) =~= n);
    assert(n.skip(0) =~= n);
}

/// Every backslash of a path is read as a slash, and nothing else changes.
pub proof fn law_separators_are_normalized(relative: Seq<char>)
    ensures
        normalize_separators(relative).len() == relative.len(),
        forall|j: int|
            0 <= j < relative.len() ==> #[trigger] normalize_separators(relative)[j] == if relative[j]
                == '\\' {
                '/'
            } else {
                relative[j]
            },
{
}

} // verus!
