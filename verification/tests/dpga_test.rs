use impactvault::domain::dpga::{suggest_recipients, DpgEntry};

fn dpg(name: &str, repos: usize, wallet: Option<&str>) -> DpgEntry {
    DpgEntry {
        name: name.to_string(),
        description: format!("{name} description"),
        website: format!("https://{name}.org"),
        repositories: (0..repos).map(|i| format!("https://github.com/{name}/{i}")).collect(),
        stage: "DPG".to_string(),
        wallet_address: wallet.map(|w| w.to_string()),
    }
}

#[test]
fn test_suggest_recipients_needs_repository_and_wallet() {
    let dpgs = vec![
        dpg("DHIS2", 1, Some("0x1234...abcd")),
        dpg("OpenMRS", 1, Some("0x5678...efgh")),
        dpg("Moodle", 1, None),
        dpg("NoCode", 0, Some("0x9999")),
        dpg("Many", 3, Some("0xaaaa")),
    ];
    let eligible = suggest_recipients(&dpgs);
    let names: Vec<&str> = eligible.iter().map(|d| d.name.as_str()).collect();
    assert_eq!(names, vec!["DHIS2", "OpenMRS", "Many"]);
}

#[test]
fn test_suggest_recipients_empty() {
    assert!(suggest_recipients(&[]).is_empty());
    assert!(suggest_recipients(&[dpg("Moodle", 1, None)]).is_empty());
}
