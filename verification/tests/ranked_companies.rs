use wse_trader::errors::NotFoundError;
use wse_trader::ranked_companies::RankedCompanies;

#[test]
fn test_ticker_is_extracted() {
    let html = "<a class=\"s_tt s_tt_sname_IFC\" href=\"/rating/IFC\">IFC (IFCAPITAL)</a>".to_string();
    let result = RankedCompanies::get_ticker(html);

    assert!(result.as_ref().unwrap() == "IFC", "Ticker not extracted properly: {:#?}", result);
}

#[test]
fn test_name_is_extracted() {
    let html = "<a class=\"s_tt s_tt_sname_IFC\" href=\"/rating/IFC\">IFC (IFCAPITAL)</a>".to_string();
    let result = RankedCompanies::get_name(html);

    assert!(result.as_ref().unwrap() == "IFCAPITAL", "Ticker not extracted properly: {:#?}", result);
}

#[test]
fn test_altman_is_extracted() {
    let html = "<span style=\"color:#03AD01\">AAA</span>".to_string();
    let result = RankedCompanies::get_altman_rating(html);

    assert!(result.as_ref().unwrap() == "AAA", "Ticker not extracted properly: {:#?}", result);

    let html = "<span style=\"color:#595959\">BBB+</span>".to_string();
    let result = RankedCompanies::get_altman_rating(html);

    assert!(result.as_ref().unwrap() == "BBB+", "Ticker not extracted properly: {:#?}", result);

    let html = "<span style=\"color:#BD2222\">B-</span>".to_string();
    let result = RankedCompanies::get_altman_rating(html);

    assert!(result.as_ref().unwrap() == "B-", "Ticker not extracted properly: {:#?}", result);
}

#[test]
fn test_piotroski_is_extracted() {
    let html = "<span style=\"color:#2D832C\">7</span>".to_string();
    let result = RankedCompanies::get_piotroski_f_score(html);

    assert!(result.as_ref().unwrap() == "7", "Ticker not extracted properly: {:#?}", result);
}

#[test]
fn test_pe_is_extracted() {
    let html = "<div class=\"field field-name-field-c-z field-type-number-decimal field-label-hidden\"><div class=\"field-items\"><div class=\"field-item even\">24.06</div></div></div>".to_string();
    let result = RankedCompanies::get_float_value(html);

    assert!(result.as_ref().unwrap() == "24.06", "Ticker not extracted properly: {:#?}", result);
}

#[test]
fn test_roe_is_extracted() {
    let html = "<div class=\"field field-name-field-roe field-type-number-decimal field-label-hidden\"><div class=\"field-items\"><div class=\"field-item even\">5.73%</div></div></div>".to_string();
    let result = RankedCompanies::get_float_value(html);

    assert!(result.as_ref().unwrap() == "5.73", "Ticker not extracted properly: {:#?}", result);
}

#[test]
fn each_lookup_reports_its_own_error() {
    assert!(matches!(RankedCompanies::get_ticker("no data".to_string()), Err(NotFoundError::TickerError())));
    assert!(matches!(RankedCompanies::get_name("no data".to_string()), Err(NotFoundError::NameError())));
    assert!(matches!(RankedCompanies::get_altman_rating("no data".to_string()), Err(NotFoundError::AltmanError())));
    assert!(matches!(RankedCompanies::get_piotroski_f_score("no data".to_string()), Err(NotFoundError::FScoreError())));
    assert!(matches!(RankedCompanies::get_float_value("no data".to_string()), Err(NotFoundError::FloatError())));
}

#[test]
fn leftmost_match_wins() {
    let r = RankedCompanies::get_ticker(">ab>XY1>ZZZ".to_string());
    assert_eq!(r.unwrap(), "XY1");
    let r = RankedCompanies::get_name("(ab) (Q1) (R2)".to_string());
    assert_eq!(r.unwrap(), "Q1");
    let r = RankedCompanies::get_name("()".to_string());
    assert_eq!(r.unwrap(), "");
}

#[test]
fn altman_rating_takes_at_most_three_letters() {
    assert!(RankedCompanies::get_altman_rating(">AAAA</span>".to_string()).is_err());
    assert_eq!(RankedCompanies::get_altman_rating(">ABC+-+</span>".to_string()).unwrap(), "ABC+-+");
    assert!(RankedCompanies::get_altman_rating(">+</span>".to_string()).is_err());
    assert!(RankedCompanies::get_altman_rating(">E</span>".to_string()).is_err());
}

#[test]
fn float_value_backtracks_like_the_pattern() {
    // the any-character takes the last digit when nothing else fits
    assert_eq!(RankedCompanies::get_float_value(">123</div>".to_string()).unwrap(), "123");
    // a percent sign after an all-digit value is taken as the any-character
    assert_eq!(RankedCompanies::get_float_value(">573%</div>".to_string()).unwrap(), "573%");
    // a sign takes the place of the any-character, and a second one does not fit
    assert!(RankedCompanies::get_float_value(">-1.5</div>".to_string()).is_err());
    assert_eq!(RankedCompanies::get_float_value(">-15</div>".to_string()).unwrap(), "-15");
    assert!(RankedCompanies::get_float_value(">\n</div>".to_string()).is_err());
    assert!(RankedCompanies::get_float_value("></div>".to_string()).is_err());
}

#[test]
fn values_written_in_page_form_are_read_back() {
    for t in ["ABC", "X1Z", "000"] {
        assert_eq!(RankedCompanies::get_ticker(format!(">{}rest", t)).unwrap(), t);
    }
    for n in ["", "MONNARI", "CD1"] {
        assert_eq!(RankedCompanies::get_name(format!("({}) tail", n)).unwrap(), n);
    }
    for v in ["A", "BB-", "DDD++", "C+-"] {
        assert_eq!(RankedCompanies::get_altman_rating(format!(">{}</span>x", v)).unwrap(), v);
    }
    for d in ["0", "5", "9"] {
        assert_eq!(RankedCompanies::get_piotroski_f_score(format!(">{}</span>", d)).unwrap(), d);
    }
    for x in ["1.5", "12,75", "7", "42", ".", "0x9"] {
        assert_eq!(RankedCompanies::get_float_value(format!(">{}</div>more", x)).unwrap(), x);
    }
}
