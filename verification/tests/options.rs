use scribobulate::options::FindOptions;

#[test]
fn the_default_is_a_case_insensitive_literal() {
    let d = FindOptions::default();
    assert!(!d.case_sensitive);
    assert!(!d.whole_word);
    assert!(!d.regex);
}

#[test]
fn each_action_accessor_reaches_exactly_its_own_field() {
    for (name, accessor) in FindOptions::actions() {
        let mut opts = FindOptions::default();
        accessor.set(&mut opts, true);
        assert!(
            accessor.get(&opts),
            "{name} did not read back what it wrote"
        );
        let set_count = FindOptions::actions()
            .iter()
            .filter(|(_, other)| other.get(&opts))
            .count();
        assert_eq!(set_count, 1, "{name} also moved another option's field");
    }
}

#[test]
fn action_names_are_distinct() {
    let mut names: Vec<&str> = FindOptions::actions().iter().map(|(n, _)| *n).collect();
    names.sort_unstable();
    let before = names.len();
    names.dedup();
    assert_eq!(names.len(), before, "two options share an action name");
}

#[test]
fn the_action_names_are_the_ones_every_surface_spells() {
    let names: Vec<&str> = FindOptions::actions().iter().map(|(n, _)| *n).collect();
    assert_eq!(names, ["find-match-case", "find-whole-word", "find-regex"]);
}
