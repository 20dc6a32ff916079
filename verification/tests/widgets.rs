use churros::widgets::{entry_color, is_valid_hex, search_results, title_visible, PageEntry};

fn entry(id: &str, title: &str, subtitle: &str) -> PageEntry {
    PageEntry { id: id.to_string(), parent: Some("apariencia".to_string()), title: title.to_string(), subtitle: subtitle.to_string(), icon: None }
}

#[test]
fn hex_colors() {
    assert!(is_valid_hex("#DE8636"));
    assert!(is_valid_hex("2a1612cc"));
    assert!(!is_valid_hex("#DE863"));
    assert!(!is_valid_hex("#GG8636"));
    assert!(!is_valid_hex("##DE8636"));
    assert!(!is_valid_hex(""));
}

#[test]
fn sidebar_search() {
    assert!(title_visible("", "Red"));
    assert!(title_visible("pant", "Pantalla"));
    assert!(title_visible("éxt", "TÉXTO"));
    assert!(!title_visible("sonido", "Pantalla"));
    let catalog = vec![entry("cursor", "Cursor", "Tema y tamaño"), entry("icons", "Iconos", "Tema de iconos"), entry("gaps", "Espacios", "Huecos")];
    let found = search_results(&catalog, "tema");
    let ids: Vec<&str> = found.iter().map(|e| e.id.as_str()).collect();
    assert_eq!(ids, vec!["cursor", "icons"]);
    assert!(search_results(&catalog, "").is_empty());
    assert_eq!(search_results(&catalog, "cursor tema").len(), 1);
}

#[test]
fn entry_colour_is_normalised() {
    assert_eq!(entry_color("  de8636 "), Some("#de8636".to_string()));
    assert_eq!(entry_color("#DE8636cc"), Some("#DE8636cc".to_string()));
    assert_eq!(entry_color("#de863"), None);
    assert_eq!(entry_color("zzzzzz"), None);
    assert_eq!(entry_color(""), None);
}
