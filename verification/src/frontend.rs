//! The web front end: its command line and the page that shows the
//! companies found.

use vstd::prelude::*;
use crate::text::{str_eq, string_from_chars};

verus! {

broadcast use vstd::string::group_string_axioms;

/// The command line of the front end.
#[derive(Debug)]
pub struct Cli {
    /// Own address
    pub oa: Option<String>,
    /// Own port
    pub op: Option<String>,
    /// Remote address
    pub ra: Option<String>,
    /// Remote port
    pub rp: Option<String>,
}

/// What the page shows of a company, each value already as text.
#[derive(Debug)]
pub struct CompanyCells {
    pub name: String,
    pub ticker: String,
    pub link: String,
    pub altman: String,
    pub f_score: String,
    pub pe: String,
    pub roe: String,
    pub p_bv: String,
    pub p_bvg: String,
}

/// The start of the page, up to the table.
pub open spec fn page_head() -> Seq<char> {
    "
    <!DOCTYPE html>
    <html>
    <style>
    table, th, td {
      border:1px solid black;
      border-collapse: collapse;
    }
    </style>
    <body>
    <h2>Best Warsaw Stock Exchange listed companies</h2>
    "@
}

/// The form after the table that starts a new search.
pub open spec fn page_new_search_form() -> Seq<char> {
    "
        <br>
        <form action=\"/index.html\">
            <input type=\"submit\" value=\"New search\" />
        </form>
    "@
}

/// The text of the cell in the column `header` for company `c`: the link as
/// an anchor to itself, the named value, or nothing for another column.
pub open spec fn cell_text(header: Seq<char>, c: CompanyCells) -> Seq<char> {
    if header == "link"@ {
        "<a href=\""@ + c.link@ + "\">"@ + c.link@ + "</a>"@
    } else if header == "name"@ {
        c.name@
    } else if header == "ticker"@ {
        c.ticker@
    } else if header == "altman"@ {
        c.altman@
    } else if header == "f_score"@ {
        c.f_score@
    } else if header == "pe"@ {
        c.pe@
    } else if header == "roe"@ {
        c.roe@
    } else if header == "p_bv"@ {
        c.p_bv@
    } else if header == "p_bvg"@ {
        c.p_bvg@
    } else {
        Seq::empty()
    }
}

/// The header row's cells: one per column but `base_link`.
pub open spec fn header_cells(headers: Seq<Seq<char>>) -> Seq<char>
    decreases headers.len(),
{
    if headers.len() == 0 {
        Seq::empty()
    } else if headers.last() != "base_link"@ {
        header_cells(headers.drop_last()) + "<td>"@ + headers.last() + "</td>"@
    } else {
        header_cells(headers.drop_last())
    }
}

/// A company's cells: per column, `<td>` (but for `base_link`), the cell
/// text, and `</td>`.
pub open spec fn company_cells(headers: Seq<Seq<char>>, c: CompanyCells) -> Seq<char>
    decreases headers.len(),
{
    if headers.len() == 0 {
        Seq::empty()
    } else {
        company_cells(headers.drop_last(), c) + (if headers.last() != "base_link"@ {
            "<td>"@
        } else {
            Seq::empty()
        }) + cell_text(headers.last(), c) + "</td>"@
    }
}

/// One table row per company.
pub open spec fn company_rows(headers: Seq<Seq<char>>, companies: Seq<CompanyCells>) -> Seq<char>
    decreases companies.len(),
{
    if companies.len() == 0 {
        Seq::empty()
    } else {
        company_rows(headers, companies.drop_last()) + "<tr>"@ + company_cells(
            headers,
            companies.last(),
        ) + "</tr>"@
    }
}

/// The page: its head, the table with a header row and one row per company,
/// and the form for a new search.
pub open spec fn companies_page(headers: Seq<Seq<char>>, companies: Seq<CompanyCells>) -> Seq<char> {
    page_head() + "<table style='width:100%'>"@ + "<tr>"@ + header_cells(headers) + "</tr>"@
        + company_rows(headers, companies) + "</table>"@ + page_new_search_form() + "</body>"@
}

/// The text of the cell in the column `header` for company `c`.
pub fn cell_text_exec(header: &str, c: &CompanyCells) -> (r: String)
    ensures
        r@ == cell_text(header@, *c),
{
    if str_eq(header, "link") {
        let mut r = "<a href=\"".to_string();
        r.append(c.link.as_str());
        r.append("\">");
        r.append(c.link.as_str());
        r.append("</a>");
        r
    } else if str_eq(header, "name") {
        c.name.clone()
    } else if str_eq(header, "ticker") {
        c.ticker.clone()
    } else if str_eq(header, "altman") {
        c.altman.clone()
    } else if str_eq(header, "f_score") {
        c.f_score.clone()
    } else if str_eq(header, "pe") {
        c.pe.clone()
    } else if str_eq(header, "roe") {
        c.roe.clone()
    } else if str_eq(header, "p_bv") {
        c.p_bv.clone()
    } else if str_eq(header, "p_bvg") {
        c.p_bvg.clone()
    } else {
        String::new()
    }
}

/// The page that shows `companies` in a table with the columns `headers`.
pub fn render_companies_page(headers: &Vec<String>, companies: &Vec<CompanyCells>) -> (r: String)
    ensures
        r@ == companies_page(headers@.map_values(|h: String| h@), companies@),
{
    let ghost hs = headers@.map_values(|h: String| h@);
    let mut result = String::new();
    result.append(
        "
    <!DOCTYPE html>
    <html>
    <style>
    table, th, td {
      border:1px solid black;
      border-collapse: collapse;
    }
    </style>
    <body>
    <h2>Best Warsaw Stock Exchange listed companies</h2>
    ",
    );
    result.append("<table style='width:100%'>");
    result.append("<tr>");
    let ghost head = result@;
    let nh = headers.len();
    let mut k: usize = 0;
    assert(hs.take(0) =~= Seq::<Seq<char>>::empty());
    while k < nh
        invariant
            nh == headers@.len(),
            hs == headers@.map_values(|h: String| h@),
            k <= nh,
            result@ == head + header_cells(hs.take(k as int)),
        decreases nh - k,
    {
        proof {
            assert(hs.take(k + 1).drop_last() =~= hs.take(k as int));
            assert(hs.take(k + 1).last() == headers@[k as int]@);
        }
        if !str_eq(headers[k].as_str(), "base_link") {
            result.append("<td>");
            result.append(headers[k].as_str());
            result.append("</td>");
        }
        k = k + 1;
    }
    assert(hs.take(nh as int) =~= hs);
    result.append("</tr>");
    let ghost table_start = result@;
    let nc = companies.len();
    let mut i: usize = 0;
    assert(companies@.take(0) =~= Seq::<CompanyCells>::empty());
    while i < nc
        invariant
            nc == companies@.len(),
            nh == headers@.len(),
            hs == headers@.map_values(|h: String| h@),
            i <= nc,
            result@ == table_start + company_rows(hs, companies@.take(i as int)),
        decreases nc - i,
    {
        proof {
            assert(companies@.take(i + 1).drop_last() =~= companies@.take(i as int));
        }
        let company = &companies[i];
        let ghost row_start = result@;
        result.append("<tr>");
        let ghost cells_start = result@;
        let mut k: usize = 0;
        while k < nh
            invariant
                nh == headers@.len(),
                hs == headers@.map_values(|h: String| h@),
                k <= nh,
                result@ == cells_start + company_cells(hs.take(k as int), *company),
            decreases nh - k,
        {
            proof {
                assert(hs.take(k + 1).drop_last() =~= hs.take(k as int));
                assert(hs.take(k + 1).last() == headers@[k as int]@);
            }
            if !str_eq(headers[k].as_str(), "base_link") {
                result.append("<td>");
            }
            let cell = cell_text_exec(headers[k].as_str(), company);
            result.append(cell.as_str());
            result.append("</td>");
            k = k + 1;
        }
        assert(hs.take(nh as int) =~= hs);
        result.append("</tr>");
        assert(result@ =~= table_start + company_rows(hs, companies@.take(i + 1)));
        i = i + 1;
    }
    assert(companies@.take(nc as int) =~= companies@);
    result.append("</table>");
    result.append(
        "
        <br>
        <form action=\"/index.html\">
            <input type=\"submit\" value=\"New search\" />
        </form>
    ",
    );
    result.append("</body>");
    result
}

/// The decimal digit `d` as a character.
pub open spec fn digit_char(d: int) -> char {
    if d == 0 {
        '0'
    } else if d == 1 {
        '1'
    } else if d == 2 {
        '2'
    } else if d == 3 {
        '3'
    } else if d == 4 {
        '4'
    } else if d == 5 {
        '5'
    } else if d == 6 {
        '6'
    } else if d == 7 {
        '7'
    } else if d == 8 {
        '8'
    } else {
        '9'
    }
}

/// `n` written in decimal, without leading zeros.
pub open spec fn decimal(n: nat) -> Seq<char>
    decreases n,
{
    if n < 10 {
        seq![digit_char(n as int)]
    } else {
        decimal(n / 10).push(digit_char((n % 10) as int))
    }
}

/// The address of an endpoint of the back end at `address` and `port`.
pub open spec fn endpoint_url(address: Seq<char>, port: nat, endpoint: Seq<char>) -> Seq<char> {
    "http://"@ + address + ":"@ + decimal(port) + "/"@ + endpoint
}

fn digit_char_exec(d: u16) -> (c: char)
    requires
        d < 10,
    ensures
        c == digit_char(d as int),
{
    match d {
        0 => '0',
        1 => '1',
        2 => '2',
        3 => '3',
        4 => '4',
        5 => '5',
        6 => '6',
        7 => '7',
        8 => '8',
        _ => '9',
    }
}

fn push_decimal(n: u16, out: &mut Vec<char>)
    ensures
        final(out)@ == old(out)@ + decimal(n as nat),
    decreases n,
{
    let ghost start = out@;
    if n >= 10 {
        push_decimal(n / 10, out);
    }
    out.push(digit_char_exec(n % 10));
    if n >= 10 {
        assert(out@ =~= start + decimal((n / 10) as nat).push(digit_char((n % 10) as int)));
    } else {
        assert(out@ =~= start + seq![digit_char(n as int)]);
    }
}

fn build_endpoint_url(address: &str, port: &str, endpoint: &str) -> (r: String)
    ensures
        r@ == "http://"@ + address@ + ":"@ + port@ + "/"@ + endpoint@,
{
    let mut r = "http://".to_string();
    r.append(address);
    r.append(":");
    r.append(port);
    r.append("/");
    r.append(endpoint);
    r
}

/// The addresses of the back end's endpoints that the front end calls.
#[derive(Debug)]
pub struct BackendUrls {
    pub clear_requirements: String,
    pub update_requirements: String,
    pub clear_results: String,
    pub search_companies: String,
}

impl BackendUrls {
    /// The endpoints of the back end at `address` and `port`.
    pub fn new(address: &str, port: u16) -> (r: Self)
        ensures
            r.clear_requirements@ == endpoint_url(address@, port as nat, "clear_requirements"@),
            r.update_requirements@ == endpoint_url(address@, port as nat, "update_requirements"@),
            r.clear_results@ == endpoint_url(address@, port as nat, "clear_reults"@),
            r.search_companies@ == endpoint_url(address@, port as nat, "search_companies"@),
    {
        let mut digits: Vec<char> = Vec::new();
        push_decimal(port, &mut digits);
        assert(digits@ =~= decimal(port as nat));
        let port_text = string_from_chars(digits.as_slice());
        BackendUrls {
            clear_requirements: build_endpoint_url(address, port_text.as_str(), "clear_requirements"),
            update_requirements: build_endpoint_url(address, port_text.as_str(), "update_requirements"),
            clear_results: build_endpoint_url(address, port_text.as_str(), "clear_reults"),
            search_companies: build_endpoint_url(address, port_text.as_str(), "search_companies"),
        }
    }
}

impl Clone for BackendUrls {
    fn clone(&self) -> (r: Self)
        ensures
            r.clear_requirements@ == self.clear_requirements@,
            r.update_requirements@ == self.update_requirements@,
            r.clear_results@ == self.clear_results@,
            r.search_companies@ == self.search_companies@,
    {
        BackendUrls {
            clear_requirements: self.clear_requirements.clone(),
            update_requirements: self.update_requirements.clone(),
            clear_results: self.clear_results.clone(),
            search_companies: self.search_companies.clone(),
        }
    }
}

// ----- laws -----

/// Reads `s` as a number written in decimal, most significant digit first.
pub open spec fn decimal_value(s: Seq<char>) -> int
    decreases s.len(),
{
    if s.len() == 0 {
        0
    } else {
        decimal_value(s.drop_last()) * 10 + ((s.last() as int) - ('0' as int))
    }
}

/// The digit `d` is the character `d` places after `0`.
pub proof fn lemma_digit_char(d: int)
    requires
        0 <= d <= 9,
    ensures
        digit_char(d) as int == ('0' as int) + d,
{
}

/// `decimal(n)` is the decimal numeral of `n`: it holds only digits, starts
/// with `0` only when it is `0` itself, and reads back as `n`.
pub proof fn lemma_decimal_reads_back(n: nat)
    ensures
        decimal(n).len() > 0,
        forall|j: int| 0 <= j < decimal(n).len() ==> '0' <= #[trigger] decimal(n)[j] && decimal(n)[j] <= '9',
        decimal(n)[0] == '0' <==> n == 0,
        decimal(n) == seq!['0'] <==> n == 0,
        decimal_value(decimal(n)) == n,
    decreases n,
{
    if n < 10 {
        lemma_digit_char(n as int);
        assert(decimal(n).drop_last() =~= Seq::<char>::empty());
        assert(decimal(n).last() == digit_char(n as int));
        assert(decimal_value(decimal(n)) == decimal_value(Seq::<char>::empty()) * 10 + ((digit_char(
            n as int,
        ) as int) - ('0' as int)));
        if decimal(n) == seq!['0'] {
            assert(decimal(n)[0] == '0');
        }
        if n == 0 {
            assert(decimal(n) =~= seq!['0']);
        }
    } else {
        let q = (n / 10) as nat;
        let r = (n % 10) as int;
        lemma_decimal_reads_back(q);
        lemma_digit_char(r);
        assert(decimal(n).drop_last() =~= decimal(q));
        assert(decimal(n)[0] == decimal(q)[0]);
        assert(q * 10 + r == n);
        assert(decimal(n).last() == digit_char(r));
        assert(decimal_value(decimal(n)) == decimal_value(decimal(q)) * 10 + ((digit_char(r) as int)
            - ('0' as int)));
        assert(decimal(n).len() >= 2);
        assert forall|j: int| 0 <= j < decimal(n).len() implies '0' <= #[trigger] decimal(n)[j]
            && decimal(n)[j] <= '9' by {
            if j < decimal(q).len() {
                assert(decimal(n)[j] == decimal(q)[j]);
            }
        }
    }
}

/// Each endpoint address names the back end's address, its port as a decimal
/// numeral that reads back as the port, and the endpoint's path.
pub proof fn lemma_endpoint_url(address: Seq<char>, port: nat, endpoint: Seq<char>)
    ensures
        endpoint_url(address, port, endpoint) == "http://"@ + address + ":"@ + decimal(port) + "/"@
            + endpoint,
        decimal_value(decimal(port)) == port,
{
    lemma_decimal_reads_back(port);
}

/// Each company adds one row, after the rows of the companies before it.
pub proof fn lemma_company_rows_push(headers: Seq<Seq<char>>, companies: Seq<CompanyCells>, c: CompanyCells)
    ensures
        company_rows(headers, companies.push(c)) == company_rows(headers, companies) + "<tr>"@
            + company_cells(headers, c) + "</tr>"@,
{
    assert(companies.push(c).drop_last() =~= companies);
}

/// A list of companies followed by another is rendered as the rows of the
/// first followed by the rows of the second: no company is dropped or
/// repeated, whatever comes before it.
pub proof fn lemma_company_rows_concat(
    headers: Seq<Seq<char>>,
    first: Seq<CompanyCells>,
    second: Seq<CompanyCells>,
)
    ensures
        company_rows(headers, first + second) == company_rows(headers, first) + company_rows(
            headers,
            second,
        ),
    decreases second.len(),
{
    if second.len() == 0 {
        assert(first + second =~= first);
        assert(company_rows(headers, first) + company_rows(headers, second) =~= company_rows(
            headers,
            first,
        ));
    } else {
        lemma_company_rows_concat(headers, first, second.drop_last());
        assert((first + second).drop_last() =~= first + second.drop_last());
        assert((first + second).last() == second.last());
    }
}

/// Each column adds its cell after the cells of the columns before it: a
/// `<td>` (but for `base_link`), the cell text, and `</td>`.
pub proof fn lemma_company_cells_push(headers: Seq<Seq<char>>, h: Seq<char>, c: CompanyCells)
    ensures
        company_cells(headers.push(h), c) == company_cells(headers, c) + (if h != "base_link"@ {
            "<td>"@
        } else {
            Seq::empty()
        }) + cell_text(h, c) + "</td>"@,
        header_cells(headers.push(h)) == if h != "base_link"@ {
            header_cells(headers) + "<td>"@ + h + "</td>"@
        } else {
            header_cells(headers)
        },
{
    assert(headers.push(h).drop_last() =~= headers);
}

/// The cell of each named column holds that value of the company; the link
/// column holds the link as an anchor to itself; another column is empty.
pub proof fn lemma_cell_text(c: CompanyCells, other: Seq<char>)
    requires
        other != "link"@ && other != "name"@ && other != "ticker"@ && other != "altman"@ && other
            != "f_score"@ && other != "pe"@ && other != "roe"@ && other != "p_bv"@ && other
            != "p_bvg"@,
    ensures
        cell_text("link"@, c) == "<a href=\""@ + c.link@ + "\">"@ + c.link@ + "</a>"@,
        cell_text("name"@, c) == c.name@,
        cell_text("ticker"@, c) == c.ticker@,
        cell_text("altman"@, c) == c.altman@,
        cell_text("f_score"@, c) == c.f_score@,
        cell_text("pe"@, c) == c.pe@,
        cell_text("roe"@, c) == c.roe@,
        cell_text("p_bv"@, c) == c.p_bv@,
        cell_text("p_bvg"@, c) == c.p_bvg@,
        cell_text(other, c) == Seq::<char>::empty(),
{
    reveal_strlit("link");
    reveal_strlit("name");
    reveal_strlit("ticker");
    reveal_strlit("altman");
    reveal_strlit("f_score");
    reveal_strlit("pe");
    reveal_strlit("roe");
    reveal_strlit("p_bv");
    reveal_strlit("p_bvg");
    assert("name"@[0] != "link"@[0]);
    assert("ticker"@.len() != "link"@.len());
    assert("ticker"@.len() != "name"@.len());
    assert("altman"@.len() != "link"@.len());
    assert("altman"@.len() != "name"@.len());
    assert("altman"@[0] != "ticker"@[0]);
    assert("f_score"@.len() != "link"@.len());
    assert("f_score"@.len() != "name"@.len());
    assert("f_score"@.len() != "ticker"@.len());
    assert("f_score"@.len() != "altman"@.len());
    assert("pe"@.len() != "link"@.len());
    assert("pe"@.len() != "name"@.len());
    assert("pe"@.len() != "ticker"@.len());
    assert("pe"@.len() != "altman"@.len());
    assert("pe"@.len() != "f_score"@.len());
    assert("roe"@.len() != "link"@.len());
    assert("roe"@.len() != "name"@.len());
    assert("roe"@.len() != "ticker"@.len());
    assert("roe"@.len() != "altman"@.len());
    assert("roe"@.len() != "f_score"@.len());
    assert("roe"@.len() != "pe"@.len());
    assert("p_bv"@[0] != "link"@[0]);
    assert("p_bv"@[0] != "name"@[0]);
    assert("p_bv"@.len() != "ticker"@.len());
    assert("p_bv"@.len() != "altman"@.len());
    assert("p_bv"@.len() != "f_score"@.len());
    assert("p_bv"@.len() != "pe"@.len());
    assert("p_bv"@.len() != "roe"@.len());
    assert("p_bvg"@.len() != "link"@.len());
    assert("p_bvg"@.len() != "name"@.len());
    assert("p_bvg"@.len() != "ticker"@.len());
    assert("p_bvg"@.len() != "altman"@.len());
    assert("p_bvg"@.len() != "f_score"@.len());
    assert("p_bvg"@.len() != "pe"@.len());
    assert("p_bvg"@.len() != "roe"@.len());
    assert("p_bvg"@.len() != "p_bv"@.len());
}

} // verus!
