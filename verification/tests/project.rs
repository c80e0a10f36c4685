use aircode_client::project::ProjectSelector;

fn texts(names: &[&str]) -> Vec<String> {
    names.iter().map(|name| name.to_string()).collect()
}

#[test]
fn completions_are_the_names_that_begin_with_the_line() {
    let names = texts(&["Cargo Bot", "Lunar Lander", "Cargo Ship", "cargo"]);
    let selector = ProjectSelector::new(names);
    assert_eq!(selector.complete("Cargo"), (0, texts(&["Cargo Bot", "Cargo Ship"])));
    assert_eq!(selector.complete("L"), (0, texts(&["Lunar Lander"])));
    assert_eq!(selector.complete("x"), (0, Vec::new()));
}

#[test]
fn empty_line_completes_to_every_name() {
    let names = texts(&["b", "a", "b"]);
    assert_eq!(ProjectSelector::new(names.clone()).complete(""), (0, names));
}

#[test]
fn whole_name_completes_to_itself() {
    let selector = ProjectSelector::new(texts(&["Main", "Mainframe"]));
    assert_eq!(selector.complete("Main"), (0, texts(&["Main", "Mainframe"])));
    assert_eq!(selector.complete("Mainframe"), (0, texts(&["Mainframe"])));
    assert_eq!(selector.complete("Mainframes"), (0, Vec::new()));
    assert_eq!(ProjectSelector::new(Vec::new()).complete("Main"), (0, Vec::new()));
}
