use stele_undead::themes::{dedup_themes, parse_index, themes_for_dir, ThemeSearch};

fn strings(v: &[&str]) -> Vec<String> {
    v.iter().map(|s| s.to_string()).collect()
}

#[test]
fn parse_index_inherits() {
    let index = "[Icon Theme]\nName=Adwaita\nInherits=gnome,hicolor\nDirectories=16x16\n";
    assert_eq!(parse_index(Some(index)), strings(&["gnome", "hicolor"]));
}

#[test]
fn parse_index_without_key() {
    assert_eq!(parse_index(Some("[Icon Theme]\nName=x\n")), Vec::<String>::new());
    assert_eq!(parse_index(None), Vec::<String>::new());
}

#[test]
fn parse_index_value_to_end_and_empty() {
    assert_eq!(parse_index(Some("Inherits=hicolor")), strings(&["hicolor"]));
    assert_eq!(parse_index(Some("Inherits=\nName=x")), strings(&[""]));
    assert_eq!(parse_index(Some("Inherits=a,b c")), strings(&["a", "b"]));
}

#[test]
fn dedup_keeps_first_occurrences() {
    let mut v = strings(&["default", "a", "b", "a", "default", "c", "b"]);
    dedup_themes(&mut v);
    assert_eq!(v, strings(&["default", "a", "b", "c"]));
}

#[test]
fn theme_search_steps() {
    let mut search = ThemeSearch::new();
    assert_eq!(search.pending(), Some(&"default".to_string()));
    themes_for_dir(&mut search, strings(&["Adwaita", "hicolor"]));
    assert_eq!(search.pending(), Some(&"Adwaita".to_string()));
    themes_for_dir(&mut search, strings(&["hicolor", "default", "gnome"]));
    assert_eq!(search.pending(), Some(&"hicolor".to_string()));
    themes_for_dir(&mut search, Vec::new());
    assert_eq!(search.pending(), Some(&"gnome".to_string()));
    themes_for_dir(&mut search, strings(&["Adwaita"]));
    assert_eq!(search.pending(), None);
    assert_eq!(search.into_themes(), strings(&["default", "Adwaita", "hicolor", "gnome"]));
}

#[test]
fn theme_search_with_cycles_ends() {
    // default -> a -> (default, b), b -> (a, b): three names, so at most three steps.
    let inherits = |theme: &str| -> Vec<String> {
        match theme {
            "default" => strings(&["a"]),
            "a" => strings(&["default", "b"]),
            "b" => strings(&["a", "b"]),
            _ => Vec::new(),
        }
    };
    let mut search = ThemeSearch::new();
    let mut steps = 0;
    while let Some(theme) = search.pending().cloned() {
        themes_for_dir(&mut search, inherits(&theme));
        steps += 1;
        assert!(steps <= 3);
    }
    assert_eq!(steps, 3);
    assert_eq!(search.into_themes(), strings(&["default", "a", "b"]));
}
