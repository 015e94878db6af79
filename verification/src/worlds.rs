//! The worlds found in a `saves` folder: which folder entries count as
//! worlds, and the order in which they are listed (by name, ignoring case).
use vstd::prelude::*;

verus! {

/// A Minecraft world found in the `saves` folder.
pub struct MinecraftWorld {
    /// The folder name, which identifies the world.
    pub id: String,
    /// The name shown to the user.
    pub name: String,
    /// The total size of the world's files, in bytes.
    pub size_bytes: u64,
    /// When the folder was last modified (RFC 3339), when known.
    pub modified_at: Option<String>,
}

/// What `str::to_lowercase` makes of a text (full Unicode lower-casing).
pub uninterp spec fn lowercase(s: Seq<char>) -> Seq<char>;

/// `str::to_lowercase`: the lower-case form of `s`. Its result is a
/// function of `s` alone, named `lowercase`; nothing more is stated of it.
#[verifier::external_body]
fn to_lowercase(s: &str) -> (res: String)
    ensures
        res@ == lowercase(s@),
{
    s.to_lowercase()
}

/// Whether `a` comes before `b` or equals it, comparing characters by
/// their code points from the front (the order of `str::cmp`).
pub open spec fn text_le(a: Seq<char>, b: Seq<char>) -> bool
    decreases a.len(),
{
    if a.len() == 0 {
        true
    } else if b.len() == 0 {
        false
    } else if a[0] != b[0] {
        (a[0] as int) < (b[0] as int)
    } else {
        text_le(a.drop_first(), b.drop_first())
    }
}

/// The key worlds are listed by: their name in lower case.
pub open spec fn world_key(w: MinecraftWorld) -> Seq<char> {
    lowercase(w.name@)
}

/// `output` is `input` reordered by `perm` (output position to input
/// position), sorted by key, with worlds of equal keys in their input
/// order.
pub open spec fn is_stable_sort(
    input: Seq<MinecraftWorld>,
    output: Seq<MinecraftWorld>,
    perm: Seq<int>,
) -> bool {
    &&& perm.len() == input.len()
    &&& output.len() == input.len()
    &&& forall|i: int| 0 <= i < perm.len() ==> 0 <= #[trigger] perm[i] < input.len()
    &&& forall|i: int, j: int| 0 <= i < j < perm.len() ==> perm[i] != perm[j]
    &&& forall|i: int| 0 <= i < output.len() ==> #[trigger] output[i] == input[perm[i]]
    &&& forall|i: int, j: int|
        0 <= i < j < output.len() ==> text_le(world_key(output[i]), world_key(output[j]))
    &&& forall|i: int, j: int|
        0 <= i < j < output.len() && world_key(output[i]) == world_key(output[j]) ==> perm[i]
            < perm[j]
}

proof fn lemma_text_le_refl(a: Seq<char>)
    ensures
        text_le(a, a),
    decreases a.len(),
{
    if a.len() > 0 {
        lemma_text_le_refl(a.drop_first());
    }
}

proof fn lemma_text_le_total(a: Seq<char>, b: Seq<char>)
    ensures
        text_le(a, b) || text_le(b, a),
    decreases a.len(),
{
    if a.len() > 0 && b.len() > 0 && a[0] == b[0] {
        lemma_text_le_total(a.drop_first(), b.drop_first());
    }
}

proof fn lemma_text_le_trans(a: Seq<char>, b: Seq<char>, c: Seq<char>)
    requires
        text_le(a, b),
        text_le(b, c),
    ensures
        text_le(a, c),
    decreases a.len(),
{
    if a.len() > 0 && b.len() > 0 && c.len() > 0 && a[0] == b[0] && b[0] == c[0] {
        lemma_text_le_trans(a.drop_first(), b.drop_first(), c.drop_first());
    }
}

/// Compares two texts in the order of `text_le`.
fn chars_le(a: &Vec<char>, b: &Vec<char>) -> (res: bool)
    ensures
        res == text_le(a@, b@),
{
    let mut i: usize = 0;
    assert(a@.skip(0) =~= a@);
    assert(b@.skip(0) =~= b@);
    loop
        invariant
            i <= a@.len(),
            i <= b@.len(),
            text_le(a@, b@) == text_le(a@.skip(i as int), b@.skip(i as int)),
        decreases a@.len() - i,
    {
        if i == a.len() {
            return true;
        }
        if i == b.len() {
            return false;
        }
        if a[i] != b[i] {
            return a[i] < b[i];
        }
        assert(a@.skip(i as int).drop_first() =~= a@.skip(i + 1));
        assert(b@.skip(i as int).drop_first() =~= b@.skip(i + 1));
        i = i + 1;
    }
}

/// The characters of `s`.
fn chars_vec(s: &String) -> (res: Vec<char>)
    ensures
        res@ == s@,
{
    crate::text::chars_of(s.as_str())
}

/// Sorts worlds by their name in lower case, keeping worlds whose keys
/// are equal in the order they came in (`sort_by` on
/// `name.to_lowercase()`).
pub fn sort_worlds(worlds: Vec<MinecraftWorld>) -> (res: Vec<MinecraftWorld>)
    ensures
        exists|perm: Seq<int>| is_stable_sort(worlds@, res@, perm),
        res@.len() == worlds@.len(),
        forall|a: int, b: int|
            0 <= a < b < res@.len() ==> text_le(
                lowercase(#[trigger] res@[a].name@),
                lowercase(#[trigger] res@[b].name@),
            ),
{
    let ghost input = worlds@;
    let mut rest = worlds;
    let mut out: Vec<MinecraftWorld> = Vec::new();
    let mut keys: Vec<Vec<char>> = Vec::new();
    let ghost mut perm: Seq<int> = Seq::empty();
    let n = rest.len();
    let mut i: usize = 0;
    while i < n
        invariant
            n == input.len(),
            i <= n,
            rest@ == input.skip(i as int),
            keys@.len() == out@.len(),
            forall|j: int| 0 <= j < keys@.len() ==> #[trigger] keys@[j]@ == world_key(out@[j]),
            perm.len() == i,
            out@.len() == i,
            forall|a: int| 0 <= a < i ==> 0 <= #[trigger] perm[a] < i,
            forall|a: int, b: int| 0 <= a < b < i ==> perm[a] != perm[b],
            forall|a: int| 0 <= a < i ==> #[trigger] out@[a] == input[perm[a]],
            forall|a: int, b: int|
                0 <= a < b < i ==> text_le(world_key(out@[a]), world_key(out@[b])),
            forall|a: int, b: int|
                0 <= a < b < i && world_key(out@[a]) == world_key(out@[b]) ==> perm[a] < perm[b],
        decreases n - i,
    {
        let w = rest.remove(0);
        assert(w == input[i as int]);
        assert(rest@ =~= input.skip(i + 1));
        let lowered = to_lowercase(w.name.as_str());
        let key = chars_vec(&lowered);
        let mut p: usize = 0;
        while p < keys.len() && chars_le(&keys[p], &key)
            invariant
                p <= keys@.len(),
                keys@.len() == out@.len(),
                forall|j: int| 0 <= j < p ==> text_le(#[trigger] keys@[j]@, key@),
            decreases keys@.len() - p,
        {
            p = p + 1;
        }
        proof {
            assert forall|j: int| p <= j < i implies !text_le(
                #[trigger] world_key(out@[j]),
                key@,
            ) by {
                assert(keys@[j]@ == world_key(out@[j]));
                if text_le(world_key(out@[j]), key@) {
                    assert(keys@[p as int]@ == world_key(out@[p as int]));
                    if j > p {
                        lemma_text_le_trans(
                            world_key(out@[p as int]),
                            world_key(out@[j]),
                            key@,
                        );
                    }
                }
            }
            assert forall|j: int| 0 <= j < p implies text_le(
                #[trigger] world_key(out@[j]),
                key@,
            ) by {
                assert(keys@[j]@ == world_key(out@[j]));
            }
        }
        let ghost old_out = out@;
        let ghost old_keys = keys@;
        let ghost old_perm = perm;
        out.insert(p, w);
        keys.insert(p, key);
        proof {
            perm = old_perm.insert(p as int, i as int);
            assert(world_key(w) == key@);
            assert forall|j: int| 0 <= j < keys@.len() implies #[trigger] keys@[j]@ == world_key(
                out@[j],
            ) by {
                if j < p {
                    assert(keys@[j] == old_keys[j]);
                } else if j > p {
                    assert(keys@[j] == old_keys[j - 1]);
                    assert(out@[j] == old_out[j - 1]);
                }
            }
            assert forall|a: int, b: int| 0 <= a < b < i + 1 implies text_le(
                world_key(out@[a]),
                world_key(out@[b]),
            ) by {
                if b == p {
                    assert(out@[a] == old_out[a]);
                } else if a == p {
                    assert(out@[b] == old_out[b - 1]);
                    lemma_text_le_total(world_key(old_out[b - 1]), key@);
                } else {
                    let a0 = if a < p {
                        a
                    } else {
                        a - 1
                    };
                    let b0 = if b < p {
                        b
                    } else {
                        b - 1
                    };
                    assert(out@[a] == old_out[a0]);
                    assert(out@[b] == old_out[b0]);
                }
            }
            assert forall|a: int, b: int|
                0 <= a < b < i + 1 && world_key(out@[a]) == world_key(out@[b]) implies perm[a]
                < perm[b] by {
                if b == p {
                    assert(perm[b] == i);
                    assert(perm[a] == old_perm[a]);
                } else if a == p {
                    assert(out@[b] == old_out[b - 1]);
                    lemma_text_le_refl(key@);
                } else {
                    let a0 = if a < p {
                        a
                    } else {
                        a - 1
                    };
                    let b0 = if b < p {
                        b
                    } else {
                        b - 1
                    };
                    assert(out@[a] == old_out[a0]);
                    assert(out@[b] == old_out[b0]);
                    assert(perm[a] == old_perm[a0]);
                    assert(perm[b] == old_perm[b0]);
                }
            }
            assert forall|a: int| 0 <= a < i + 1 implies #[trigger] out@[a] == input[perm[a]] by {
                if a < p {
                    assert(out@[a] == old_out[a]);
                } else if a > p {
                    assert(out@[a] == old_out[a - 1]);
                }
            }
            assert forall|a: int, b: int| 0 <= a < b < i + 1 implies perm[a] != perm[b] by {
                if a != p && b != p {
                    let a0 = if a < p {
                        a
                    } else {
                        a - 1
                    };
                    let b0 = if b < p {
                        b
                    } else {
                        b - 1
                    };
                    assert(perm[a] == old_perm[a0]);
                    assert(perm[b] == old_perm[b0]);
                } else if a == p {
                    assert(perm[b] == old_perm[b - 1]);
                } else {
                    assert(perm[a] == old_perm[a]);
                }
            }
            assert forall|a: int| 0 <= a < i + 1 implies 0 <= #[trigger] perm[a] < i + 1 by {
                if a < p {
                    assert(perm[a] == old_perm[a]);
                } else if a > p {
                    assert(perm[a] == old_perm[a - 1]);
                }
            }
        }
        i = i + 1;
    }
    assert(is_stable_sort(input, out@, perm));
    assert forall|a: int, b: int| 0 <= a < b < out@.len() implies text_le(
        lowercase(#[trigger] out@[a].name@),
        lowercase(#[trigger] out@[b].name@),
    ) by {
        assert(text_le(world_key(out@[a]), world_key(out@[b])));
    }
    out
}

/// Whether a folder entry is a world: a real folder (not a link) that
/// holds a `level.dat` file.
pub fn is_world_folder(is_link: bool, is_dir: bool, has_level_dat: bool) -> (res: bool)
    ensures
        res == (!is_link && is_dir && has_level_dat),
{
    !(is_link || !is_dir || !has_level_dat)
}

/// Whether a folder entry is a link that a backup must not follow: a
/// symbolic link, or (given its Windows file attributes) a reparse point.
pub fn is_link_or_reparse_point(is_symlink: bool, windows_attributes: Option<u32>) -> (res: bool)
    ensures
        res == (is_symlink || (windows_attributes matches Some(a) && a & 0x400u32 != 0)),
{
    if is_symlink {
        return true;
    }
    match windows_attributes {
        Some(a) => a & 0x400u32 != 0,
        None => false,
    }
}

/// The identifiers of the given worlds, in order.
pub fn world_ids(worlds: &Vec<MinecraftWorld>) -> (res: Vec<String>)
    ensures
        res@.len() == worlds@.len(),
        forall|i: int| 0 <= i < res@.len() ==> #[trigger] res@[i]@ == worlds@[i].id@,
{
    let mut res: Vec<String> = Vec::new();
    let mut i: usize = 0;
    while i < worlds.len()
        invariant
            i <= worlds@.len(),
            res@.len() == i,
            forall|j: int| 0 <= j < i ==> #[trigger] res@[j]@ == worlds@[j].id@,
        decreases worlds.len() - i,
    {
        res.push(worlds[i].id.clone());
        i = i + 1;
    }
    res
}


/// Worlds are listed by their whole name in lower case.
pub proof fn law_world_key_is_the_lowercased_name(w: MinecraftWorld)
    ensures
        world_key(w) == lowercase(w.name@),
{
}

/// `text_le` is the order of texts by their first differing character:
/// a text comes before every text it begins; at the first position where
/// two texts differ, the one with the smaller code point comes first; and
/// a text never comes before a shorter text that begins it.
pub proof fn law_text_le_orders_by_first_difference(a: Seq<char>, b: Seq<char>, k: int)
    ensures
        a.len() <= b.len() && b.take(a.len() as int) == a ==> text_le(a, b),
        b.len() < a.len() && a.take(b.len() as int) == b ==> !text_le(a, b),
        0 <= k < a.len() && k < b.len() && a.take(k) == b.take(k) && a[k] != b[k] ==> (text_le(
            a,
            b,
        ) <==> (a[k] as int) < (b[k] as int)),
    decreases a.len(),
{
    if a.len() > 0 && b.len() > 0 {
        law_text_le_orders_by_first_difference(a.drop_first(), b.drop_first(), k - 1);
        if a.len() <= b.len() && b.take(a.len() as int) == a {
            assert(a[0] == b.take(a.len() as int)[0]);
            assert(b.drop_first().take(a.drop_first().len() as int) =~= a.drop_first());
        }
        if b.len() < a.len() && a.take(b.len() as int) == b {
            assert(b[0] == a.take(b.len() as int)[0]);
            assert(a.drop_first().take(b.drop_first().len() as int) =~= b.drop_first());
        }
        if 0 <= k < a.len() && k < b.len() && a.take(k) == b.take(k) && a[k] != b[k] {
            if k > 0 {
                assert(a[0] == a.take(k)[0]);
                assert(b[0] == b.take(k)[0]);
                assert(a.drop_first().take(k - 1) =~= a.take(k).drop_first());
                assert(b.drop_first().take(k - 1) =~= b.take(k).drop_first());
                assert(a.drop_first()[k - 1] == a[k]);
                assert(b.drop_first()[k - 1] == b[k]);
            }
        }
    }
}

} // verus!
