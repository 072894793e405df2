use wse_trader::frontend::{render_companies_page, BackendUrls, CompanyCells};

fn cells(name: &str, ticker: &str, link: &str) -> CompanyCells {
    CompanyCells {
        name: name.to_string(),
        ticker: ticker.to_string(),
        link: link.to_string(),
        altman: "AAA".to_string(),
        f_score: "8".to_string(),
        pe: "2.2".to_string(),
        roe: "26.5".to_string(),
        p_bv: "0.58".to_string(),
        p_bvg: "1.29".to_string(),
    }
}

/// The page as the front end assembled it, column by column.
fn expected(headers: &[&str], companies: &[CompanyCells]) -> String {
    let mut result = String::new();
    result += "
    <!DOCTYPE html>
    <html>
    <style>
    table, th, td {
      border:1px solid black;
      border-collapse: collapse;
    }
    </style>
    <body>
    <h2>Best Warsaw Stock Exchange listed companies</h2>
    ";
    result += "<table style='width:100%'>";
    result += "<tr>";
    for header in headers {
        if *header != "base_link" {
            result += "<td>";
            result += header;
            result += "</td>";
        }
    }
    result += "</tr>";
    for company in companies {
        result += "<tr>";
        for header in headers {
            if *header != "base_link" {
                result += "<td>";
            }
            match *header {
                "link" => result += &format!("<a href=\"{}\">{}</a>", company.link, company.link),
                "name" => result += &company.name,
                "ticker" => result += &company.ticker,
                "altman" => result += &company.altman,
                "f_score" => result += &company.f_score,
                "pe" => result += &company.pe,
                "roe" => result += &company.roe,
                "p_bv" => result += &company.p_bv,
                "p_bvg" => result += &company.p_bvg,
                _ => {}
            }
            result += "</td>";
        }
        result += "</tr>";
    }
    result += "</table>";
    result += "
        <br>
        <form action=\"/index.html\">
            <input type=\"submit\" value=\"New search\" />
        </form>
    ";
    result += "</body>";
    result
}

#[test]
fn page_lists_companies_under_the_field_names() {
    let headers = ["name", "ticker", "link", "altman", "f_score", "pe", "roe", "p_bv", "p_bvg", "dividend_years"];
    let companies = vec![cells("MONNARI", "MON", "http://x/monnari-mon"), cells("XTB", "XTB", "http://x/xtb-xtb")];
    let header_strings: Vec<String> = headers.iter().map(|h| h.to_string()).collect();
    let page = render_companies_page(&header_strings, &companies);
    assert_eq!(page, expected(&headers, &companies));
    assert!(page.contains("<td><a href=\"http://x/xtb-xtb\">http://x/xtb-xtb</a></td>"));
}

#[test]
fn base_link_column_is_not_shown() {
    let headers = ["base_link", "name"];
    let companies = vec![cells("A", "AAA", "l")];
    let header_strings: Vec<String> = headers.iter().map(|h| h.to_string()).collect();
    let page = render_companies_page(&header_strings, &companies);
    assert_eq!(page, expected(&headers, &companies));
    assert!(page.contains("<tr><td>name</td></tr><tr></td><td>A</td></tr>"));
}

#[test]
fn empty_list_gives_only_the_header_row() {
    let header_strings: Vec<String> = vec!["name".to_string()];
    let page = render_companies_page(&header_strings, &vec![]);
    assert_eq!(page, expected(&["name"], &[]));
}

#[test]
fn backend_urls_name_each_endpoint() {
    let u = BackendUrls::new("127.0.0.1", 8080);
    assert_eq!(u.clear_requirements, "http://127.0.0.1:8080/clear_requirements");
    assert_eq!(u.update_requirements, "http://127.0.0.1:8080/update_requirements");
    assert_eq!(u.clear_results, "http://127.0.0.1:8080/clear_reults");
    assert_eq!(u.search_companies, "http://127.0.0.1:8080/search_companies");
    let c = u.clone();
    assert_eq!(c.search_companies, u.search_companies);
}

#[test]
fn backend_port_is_written_in_decimal() {
    for port in [0u16, 7, 10, 99, 100, 65535] {
        let u = BackendUrls::new("h", port);
        assert_eq!(u.search_companies, format!("http://h:{}/search_companies", port));
    }
}
