use wse_trader::errors::NotFoundError;
use wse_trader::ranked_companies::RankedCompanies;
use wse_trader::shared_types::{digit_to_f32_bits, Company, StockRequirements};
use wse_trader::urls::{CompanyDataUrlProvider, UrlsModifier};

const RATING_PAGE: &str = r#"<html><body><table>
<tr><th>Company</th><th>Date</th><th>Altman</th><th>Piotroski</th></tr>
<tr><td><a href="/rating/MON">MON (MONNARI)</a></td><td>2022</td><td><span style="color:#03AD01">AAA</span></td><td><span style="color:#2D832C">8</span></td></tr>
<tr><td><a href="/rating/XTB">XTB</a></td><td>2022</td><td><span style="color:#03AD01">AAA</span></td><td><span>9</span></td></tr>
<tr><td><a href="/rating/ABC">ABC (ABCDATA)</a></td><td>2022</td><td><span>BB-</span></td><td><span>9</span></td></tr>
<tr><td><a href="/rating/LOW">LOW (LOWSCORE)</a></td><td>2022</td><td><span>AAA</span></td><td><span>3</span></td></tr>
<tr><td>no ticker here</td><td>2022</td><td><span>AAA</span></td><td><span>9</span></td></tr>
<tr><td>three cells</td><td>2022</td><td><span>AAA</span></td></tr>
</table></body></html>"#;

fn requirements(ratings: &[&str]) -> StockRequirements {
    let mut r = StockRequirements::new();
    r.ratings = ratings.iter().map(|s| s.to_string()).collect();
    r
}

fn indicator_page(rows: usize) -> String {
    let mut s = String::from("<table>");
    for i in 0..rows {
        let value = match i {
            0 => "<div>2.2</div>".to_string(),
            1 => "<div>0.58</div>".to_string(),
            2 => "<div>1.29</div>".to_string(),
            10 => "<div>26.5%</div>".to_string(),
            _ => format!("<div>row {}</div>", i),
        };
        s.push_str(&format!("<tr><td>name {}</td><td>{}</td></tr>", i, value));
    }
    s.push_str("</table>");
    s
}

#[test]
fn digit_bits_are_the_single_precision_digits() {
    for d in 0u8..=9 {
        assert_eq!(f32::from_bits(digit_to_f32_bits(d)), d as f32);
    }
    let r = StockRequirements::default();
    assert_eq!(f32::from_bits(r.p_e_max_limit_bits), 100.0);
    assert_eq!(f32::from_bits(r.roe_min_limit_bits), 0.0);
    assert_eq!(f32::from_bits(r.p_bv_max_limit_bits), 100.0);
    assert_eq!(f32::from_bits(r.p_bv_g_max_limit_bits), 100.0);
    assert_eq!(f32::from_bits(r.f_score_min_limit_bits), 0.0);
    assert!(r.ratings.is_empty() && r.dividend_years.is_empty());
}

#[test]
fn new_ranking_is_empty() {
    let r = RankedCompanies::new();
    assert!(r.companies_list().is_empty());
    assert_eq!(r.url(), "https://www.biznesradar.pl/spolki-rating/akcje_gpw");
    assert!(r.requirements().ratings.is_empty());
    let c = Company::default();
    assert_eq!(c.base_link, "https://strefainwestorow.pl/notowania/gpw/");
    assert_eq!(c.name, "");
}

#[test]
fn rows_with_data_have_four_cells() {
    let four: Vec<String> = vec!["a".into(), "b".into(), "c".into(), "d".into()];
    assert!(RankedCompanies::is_the_row_with_data(&four));
    assert!(!RankedCompanies::is_the_row_with_data(&four[..3]));
}

#[test]
fn company_is_read_from_a_row() {
    let cells: Vec<String> = vec![
        "<a>XTB</a>".into(),
        "x".into(),
        "<span>A+</span>".into(),
        "<span>4</span>".into(),
    ];
    let (c, d) = RankedCompanies::company_from_row(&cells).unwrap();
    assert_eq!((c.name.as_str(), c.ticker.as_str(), c.altman.as_str(), d), ("XTB", "XTB", "A+", 4));
    assert_eq!(f32::from_bits(c.f_score_bits), 4.0);
    let cells: Vec<String> = vec!["<a>XTB</a>".into(), "x".into(), "<span>A+</span>".into(), "none".into()];
    assert!(RankedCompanies::company_from_row(&cells).is_none());
}

#[test]
fn companies_with_accepted_rating_and_score_are_kept() {
    let mut r = RankedCompanies::new();
    r.update_requirements(requirements(&["AAA", "AA"]));
    assert!(r.is_altman_ok(&"AAA".to_string()));
    assert!(!r.is_altman_ok(&"BB-".to_string()));
    assert!(r.get_companies(&RATING_PAGE.to_string(), 7));
    let names: Vec<(&str, &str)> =
        r.companies_list().iter().map(|c| (c.name.as_str(), c.ticker.as_str())).collect();
    assert_eq!(names, vec![("MONNARI", "MON"), ("XTB", "XTB")]);
    assert!(!r.get_companies(&"<p>no table</p>".to_string(), 0));
    assert_eq!(r.companies_list().len(), 2);
}

#[test]
fn indicators_are_read_and_stored() {
    let mut r = RankedCompanies::new();
    r.set_companies_list_url("http://127.0.0.1:8765/spolki-rating/akcje_gpw".to_string());
    assert_eq!(r.url(), "http://127.0.0.1:8765/spolki-rating/akcje_gpw");
    r.set_company_data_url_provider(CompanyDataUrlProvider::new(
        "http://127.0.0.1:8765/notowania/gpw/".to_string(),
        None,
    ));
    r.update_requirements(requirements(&["AAA"]));
    assert!(r.get_companies(&RATING_PAGE.to_string(), 0));
    assert_eq!(r.companies_list().len(), 3);
    let link = r.update_company_link(0);
    assert_eq!(link, "http://127.0.0.1:8765/notowania/gpw/monnari-mon/wskazniki-finansowe");
    assert_eq!(r.companies_list()[0].link, link);

    let texts = RankedCompanies::read_indicators(&indicator_page(11), link.clone()).unwrap().unwrap();
    assert_eq!(texts.pe.as_deref(), Some("2.2"));
    assert_eq!(texts.roe.as_deref(), Some("26.5"));
    assert_eq!(texts.p_bv.as_deref(), Some("0.58"));
    assert_eq!(texts.p_bvg.as_deref(), Some("1.29"));
    r.set_company_indicators(0, Some(2.2f32.to_bits()), None, Some(0.58f32.to_bits()), Some(1.29f32.to_bits()));
    let c = &r.companies_list()[0];
    assert_eq!((f32::from_bits(c.pe_bits), f32::from_bits(c.roe_bits)), (2.2, 0.0));

    match RankedCompanies::read_indicators(&indicator_page(5), link.clone()) {
        Some(Err(NotFoundError::WrongLinkError(l))) => assert_eq!(l, link),
        other => panic!("unexpected {:?}", other.map(|r| r.is_ok())),
    }
    assert!(RankedCompanies::read_indicators(&"no table".to_string(), link.clone()).is_none());
    let short = "<table>".to_string() + &"<tr><td>x</td></tr>".repeat(11) + "</table>";
    assert!(RankedCompanies::read_indicators(&short, link).is_none());
}

#[test]
fn url_mappings_rewrite_company_links() {
    let mut r = RankedCompanies::new();
    r.update_requirements(requirements(&["AAA"]));
    r.update_url_mappings(
        UrlsModifier::with_mapping("m".to_string(), vec![("xtb-xtb".to_string(), "xtb".to_string())]).unwrap(),
    );
    assert!(r.get_companies(&RATING_PAGE.to_string(), 9));
    assert_eq!(r.companies_list().len(), 1);
    assert_eq!(r.update_company_link(0), "https://strefainwestorow.pl/notowania/gpw/xtb/wskazniki-finansowe");
}

#[test]
fn narrowing_keeps_flagged_companies_in_order() {
    let mut r = RankedCompanies::new();
    r.update_requirements(requirements(&["AAA"]));
    assert!(r.get_companies(&RATING_PAGE.to_string(), 0));
    r.filter_best_companies(&vec![true, false, true]);
    let tickers: Vec<&str> = r.companies_list().iter().map(|c| c.ticker.as_str()).collect();
    assert_eq!(tickers, vec!["MON", "LOW"]);
    r.filter_best_companies(&vec![false, false]);
    assert!(r.companies_list().is_empty());
}

#[test]
fn narrowing_twice_by_the_same_test_changes_nothing() {
    let mut r = RankedCompanies::new();
    r.update_requirements(requirements(&["AAA"]));
    assert!(r.get_companies(&RATING_PAGE.to_string(), 0));
    let pass = |c: &Company| c.name != "LOWSCORE";
    let first: Vec<bool> = r.companies_list().iter().map(pass).collect();
    r.filter_best_companies(&first);
    let once: Vec<String> = r.companies_list().iter().map(|c| c.ticker.clone()).collect();
    assert_eq!(once, vec!["MON".to_string(), "XTB".to_string()]);
    let second: Vec<bool> = r.companies_list().iter().map(pass).collect();
    assert_eq!(second, vec![true, true]);
    r.filter_best_companies(&second);
    let twice: Vec<String> = r.companies_list().iter().map(|c| c.ticker.clone()).collect();
    assert_eq!(twice, once);
}

#[test]
fn new_ranking_has_the_default_requirements() {
    let r = RankedCompanies::new();
    let q = r.requirements();
    assert_eq!(f32::from_bits(q.p_e_max_limit_bits), 100.0);
    assert_eq!(f32::from_bits(q.roe_min_limit_bits), 0.0);
    assert_eq!(f32::from_bits(q.p_bv_max_limit_bits), 100.0);
    assert_eq!(f32::from_bits(q.p_bv_g_max_limit_bits), 100.0);
    assert_eq!(f32::from_bits(q.f_score_min_limit_bits), 0.0);
    assert!(q.dividend_years.is_empty() && q.ratings.is_empty());
}

#[test]
fn new_requirements_select_the_next_search() {
    let mut r = RankedCompanies::new();
    r.update_requirements(requirements(&["AAA"]));
    assert!(r.get_companies(&RATING_PAGE.to_string(), 0));
    assert_eq!(r.companies_list().len(), 3);
    r.clear_companies();
    let mut q = requirements(&["BB-"]);
    q.dividend_years = vec!["2020".to_string()];
    let copy = q.clone();
    r.update_requirements(q);
    assert_eq!(r.requirements().ratings, copy.ratings);
    assert_eq!(r.requirements().dividend_years, copy.dividend_years);
    assert!(r.get_companies(&RATING_PAGE.to_string(), 0));
    let tickers: Vec<&str> = r.companies_list().iter().map(|c| c.ticker.as_str()).collect();
    assert_eq!(tickers, vec!["ABC"]);
}

#[test]
fn error_messages() {
    assert_eq!(NotFoundError::TickerError().message(), "TickerError: Searched value not found");
    assert_eq!(NotFoundError::FloatError().message(), "FloatError: Searched value not found");
    assert_eq!(
        NotFoundError::WrongLinkError("L".to_string()).message(),
        "WrongLinkError: Wrong link L, Identify correct link for the company, and put the diff between links into links_mapping.yaml"
    );
}

#[test]
fn search_started_afresh_gives_the_same_companies_twice() {
    let mut r = RankedCompanies::new();
    r.update_requirements(requirements(&["AAA"]));
    let mut results = Vec::new();
    for _ in 0..2 {
        r.clear_companies();
        assert!(r.companies_list().is_empty());
        assert!(r.get_companies(&RATING_PAGE.to_string(), 8));
        let found: Vec<(String, String, String)> = r
            .companies_list()
            .iter()
            .map(|c| (c.name.clone(), c.ticker.clone(), c.altman.clone()))
            .collect();
        results.push(found);
    }
    assert_eq!(results[0], results[1]);
    assert_eq!(results[0].len(), 2);
}

#[test]
fn requirements_new_is_the_default() {
    let r = StockRequirements::new();
    assert_eq!(f32::from_bits(r.p_e_max_limit_bits), 100.0);
    assert_eq!(f32::from_bits(r.f_score_min_limit_bits), 0.0);
    assert!(r.ratings.is_empty());
}
