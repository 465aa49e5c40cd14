use sonicbot_matrix::generate_module_names;

fn strings(v: &[&str]) -> Vec<String> {
    v.iter().map(|s| s.to_string()).collect()
}

#[test]
fn module_names_sorted_without_mod() {
    let files = strings(&["randfact.rs", "mod.rs", "choose.rs", "list.rs", "help.rs"]);
    assert_eq!(generate_module_names(files), vec!["choose", "help", "list", "randfact"]);
    let files = strings(&["left.rs", "joined.rs", "invited.rs", "mod.rs"]);
    assert_eq!(generate_module_names(files), vec!["invited", "joined", "left"]);
}

#[test]
fn module_names_ignore_case_and_keep_ties() {
    let files = strings(&["Zeta.rs", "b.rs", "B.rs", "alpha.tar.gz", "mod.txt", "Mod.rs"]);
    assert_eq!(generate_module_names(files), vec!["alpha", "b", "B", "Mod", "Zeta"]);
    assert!(generate_module_names(Vec::new()).is_empty());
}
