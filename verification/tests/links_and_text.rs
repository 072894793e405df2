use wse_trader::shared_types::{Company, ServerConfig};
use wse_trader::text::{str_contains, str_eq, str_replace};
use wse_trader::urls::{CompanyDataUrlProvider, UrlsModifier};

#[test]
fn contains_and_replace_match_std() {
    let cases = [
        ("abcabc", "bc", "X"),
        ("abcabc", "", "-"),
        ("", "", "-"),
        ("", "a", "b"),
        ("aaaa", "aa", "b"),
        ("xyz", "xyzw", "q"),
        ("żółw-żółw", "ół", "OL"),
    ];
    for (s, p, r) in cases {
        assert_eq!(str_contains(s, p), s.contains(p), "{} contains {}", s, p);
        assert_eq!(str_replace(s, p, r), s.replace(p, r), "{} replace {} by {}", s, p, r);
    }
    assert!(str_eq("link", "link"));
    assert!(!str_eq("link", "lin"));
}

#[test]
fn empty_mapping_keeps_links() {
    let m = UrlsModifier::new("links_mapping.yaml".to_string());
    assert_eq!(m.path, "links_mapping.yaml");
    assert_eq!(m.modify("https://a/b-c/wskazniki-finansowe".to_string()), "https://a/b-c/wskazniki-finansowe");
    let d = UrlsModifier::default();
    assert_eq!(d.path, "");
    assert_eq!(d.modify("x".to_string()), "x");
}

#[test]
fn mapping_replaces_first_matching_fragment_everywhere() {
    let m = UrlsModifier::with_mapping(
        "links_mapping.yaml".to_string(),
        vec![
            ("absent".to_string(), "never".to_string()),
            ("mon".to_string(), "monnari-sa".to_string()),
            ("gpw".to_string(), "other".to_string()),
        ],
    )
    .unwrap();
    assert_eq!(m.modify("https://x/gpw/mon-mon/w".to_string()), "https://x/gpw/monnari-sa-monnari-sa/w");
}

#[test]
fn mapping_with_a_repeated_key_is_refused() {
    let m = UrlsModifier::with_mapping(
        "p".to_string(),
        vec![("a".to_string(), "b".to_string()), ("a".to_string(), "c".to_string())],
    );
    assert!(m.is_none());
}

#[test]
fn company_data_url_is_lower_case_and_rewritten() {
    let mut p = CompanyDataUrlProvider::new("http://127.0.0.1:8765/notowania/gpw/".to_string(), None);
    assert_eq!(
        p.get_company_data_url("MONNARI", "MON"),
        "http://127.0.0.1:8765/notowania/gpw/monnari-mon/wskazniki-finansowe"
    );
    let m = UrlsModifier::with_mapping("m".to_string(), vec![("xtb-xtb".to_string(), "xtb-sa".to_string())]).unwrap();
    let mut p = CompanyDataUrlProvider::new("https://S/".to_string(), Some(m));
    assert_eq!(p.get_company_data_url("XTB", "XTB"), "https://s/xtb-sa/wskazniki-finansowe");
    assert_eq!(p.update_indicators_link("no-match".to_string()), "no-match");
    let mut d = CompanyDataUrlProvider::default();
    assert_eq!(d.base_link, "");
    assert_eq!(d.get_company_data_url("Ą", "B"), "ą-b/wskazniki-finansowe");
}

#[test]
fn company_link_keeps_case() {
    let mut c = Company::default();
    c.name = "MONNARI".to_string();
    c.ticker = "MON".to_string();
    c.update_indicators_link(None);
    assert_eq!(c.link, "https://strefainwestorow.pl/notowania/gpw/MONNARI-MON/wskazniki-finansowe");
    let m = UrlsModifier::with_mapping("m".to_string(), vec![("MONNARI-MON".to_string(), "monnari".to_string())]).unwrap();
    c.update_indicators_link(Some(m));
    assert_eq!(c.link, "https://strefainwestorow.pl/notowania/gpw/monnari/wskazniki-finansowe");
}

#[test]
fn server_url_joins_address_and_port() {
    let c = ServerConfig { address: "127.0.0.1".to_string(), port: "80".to_string() };
    assert_eq!(c.get_url(), "127.0.0.1:80");
    assert_eq!(ServerConfig::default().get_url(), "0.0.0.0:00");
}

#[test]
fn cloned_link_types_rewrite_the_same_way() {
    let m = UrlsModifier::with_mapping(
        "links.yaml".to_string(),
        vec![("abc-".to_string(), "xyz-".to_string())],
    )
    .unwrap();
    let copy = m.clone();
    assert_eq!(copy.path, m.path);
    assert_eq!(copy.apply("https://x/abc-1".to_string()), m.apply("https://x/abc-1".to_string()));
    assert_eq!(copy.apply("https://x/abc-1".to_string()), "https://x/xyz-1");
    let mut p = CompanyDataUrlProvider::new("https://base/".to_string(), Some(m));
    let mut q = p.clone();
    assert_eq!(q.base_link, p.base_link);
    assert_eq!(q.get_company_data_url("ABC", "A"), p.get_company_data_url("ABC", "A"));
    let s = ServerConfig { address: "1.2.3.4".to_string(), port: "81".to_string() };
    assert_eq!(s.clone().get_url(), "1.2.3.4:81");
    let mut c = Company::default();
    c.name = "MONNARI".to_string();
    c.dividend_years = vec!["2021".to_string()];
    let d = c.clone();
    assert_eq!(d.name, c.name);
    assert_eq!(d.dividend_years, c.dividend_years);
}
