use mine_autobackup::worlds::{
    is_link_or_reparse_point, is_world_folder, sort_worlds, world_ids, MinecraftWorld,
};

fn world(id: &str, size: u64) -> MinecraftWorld {
    MinecraftWorld { id: id.to_string(), name: id.to_string(), size_bytes: size, modified_at: None }
}

fn names(worlds: &[MinecraftWorld]) -> Vec<String> {
    worlds.iter().map(|w| w.name.clone()).collect()
}

#[test]
fn sorts_by_name_ignoring_case() {
    let sorted = sort_worlds(vec![world("beta", 1), world("Alpha", 2), world("gamma", 3), world("Delta", 4)]);
    assert_eq!(names(&sorted), vec!["Alpha", "beta", "Delta", "gamma"]);
}

#[test]
fn equal_keys_keep_their_order() {
    let sorted = sort_worlds(vec![world("B", 1), world("a", 2), world("b", 3), world("A", 4)]);
    let sizes: Vec<u64> = sorted.iter().map(|w| w.size_bytes).collect();
    assert_eq!(sizes, vec![2, 4, 1, 3]);
}

#[test]
fn sort_agrees_with_std_sort_by() {
    let ids = ["Zeta", "alpha", "Ärger", "émile", "Émile", "z", "Z", "10", "9", "a b", "A B", "ΣΑΣ", "σας", "", "world (1)", "World (1)"];
    let mut input: Vec<MinecraftWorld> = Vec::new();
    for (i, id) in ids.iter().enumerate() {
        input.push(world(id, i as u64));
    }
    let mut expected: Vec<(String, u64)> = input.iter().map(|w| (w.name.clone(), w.size_bytes)).collect();
    expected.sort_by(|a, b| a.0.to_lowercase().cmp(&b.0.to_lowercase()));
    let sorted = sort_worlds(input);
    let got: Vec<(String, u64)> = sorted.iter().map(|w| (w.name.clone(), w.size_bytes)).collect();
    assert_eq!(got, expected);
}

#[test]
fn empty_list_sorts_to_empty() {
    assert!(sort_worlds(Vec::new()).is_empty());
}

#[test]
fn world_folder_rules() {
    assert!(is_world_folder(false, true, true));
    assert!(!is_world_folder(true, true, true));
    assert!(!is_world_folder(false, false, true));
    assert!(!is_world_folder(false, true, false));
}

#[test]
fn links_and_reparse_points() {
    assert!(is_link_or_reparse_point(true, None));
    assert!(!is_link_or_reparse_point(false, None));
    assert!(is_link_or_reparse_point(false, Some(0x400)));
    assert!(is_link_or_reparse_point(false, Some(0x410)));
    assert!(!is_link_or_reparse_point(false, Some(0x10)));
}

#[test]
fn ids_of_worlds() {
    assert_eq!(world_ids(&vec![world("a", 1), world("b", 2)]), vec!["a".to_string(), "b".to_string()]);
}
