//! The ranking: companies read from the rating page, kept when their rating
//! and F-score are accepted, completed with their indicators, and narrowed to
//! those whose indicators meet the requirements.
//!
//! The comparisons of single-precision values happen outside the library; it
//! takes their outcomes: the least accepted F-score digit (the F-score limit
//! orders the ten digits), and for each company whether its indicators pass.

use vstd::prelude::*;
use crate::errors::NotFoundError;
use crate::patterns::{
    all_in_class, find_first, first_group, in_class, is_altman_rating, is_ticker, leftmost_from,
    lemma_altman_read_back, lemma_f_score_read_back, lemma_first_group_shape,
    lemma_leftmost_is_match, lemma_match_bounds, lemma_name_read_back, lemma_ticker_read_back,
    CharClass, Pattern,
};
use crate::shared_types::{
    default_company, digit_f32_bits, digit_to_f32_bits, ratings_seq, Company, CompanyView,
    StockRequirements, F32_HUNDRED_BITS, F32_ZERO_BITS,
};
use crate::tables::{find_first_table, first_table_rows};
use crate::text::{chars_of, string_from_chars};
use crate::urls::{indicators_link_seq, lowercase, CompanyDataUrlProvider, UrlsModifier};

verus! {

broadcast use vstd::string::group_string_axioms;

/// The group of the leftmost match, or the error given for a page without a
/// match.
pub open spec fn group_or(pattern: Pattern, html: Seq<char>, error: NotFoundError, r: Result<
    String,
    NotFoundError,
>) -> bool {
    match r {
        Ok(v) => first_group(pattern, html) == Some(v@),
        Err(e) => first_group(pattern, html) is None && e == error,
    }
}

/// What a data row of the rating page says of a company: name, ticker,
/// Altman rating and F-score digit. The name falls back to the ticker.
pub open spec fn row_company(cells: Seq<Seq<char>>) -> Option<(Seq<char>, Seq<char>, Seq<char>, int)> {
    if cells.len() != 4 {
        None
    } else {
        let name = match first_group(Pattern::Name, cells[0]) {
            Some(n) => Some(n),
            None => first_group(Pattern::Ticker, cells[0]),
        };
        match (
            name,
            first_group(Pattern::Ticker, cells[0]),
            first_group(Pattern::Altman, cells[2]),
            first_group(Pattern::FScore, cells[3]),
        ) {
            (Some(n), Some(t), Some(a), Some(f)) => Some((n, t, a, (f[0] as int) - ('0' as int))),
            _ => None,
        }
    }
}

/// The company a row makes.
pub open spec fn row_company_view(n: Seq<char>, t: Seq<char>, a: Seq<char>, d: int) -> CompanyView {
    CompanyView { name: n, ticker: t, altman: a, f_score_bits: digit_f32_bits(d), ..default_company() }
}

/// The companies that `rows` yield, in row order, that have an accepted
/// rating and an F-score digit of at least `min_f_score`.
pub open spec fn selected_companies(
    rows: Seq<Seq<Seq<char>>>,
    ratings: Seq<Seq<char>>,
    min_f_score: int,
) -> Seq<CompanyView>
    decreases rows.len(),
{
    if rows.len() == 0 {
        Seq::empty()
    } else {
        let before = selected_companies(rows.drop_last(), ratings, min_f_score);
        match row_company(rows.last()) {
            Some((n, t, a, d)) => if ratings.contains(a) && d >= min_f_score {
                before.push(row_company_view(n, t, a, d))
            } else {
                before
            },
            None => before,
        }
    }
}

/// The entries of `s` whose flag in `keep` is set, in order.
pub open spec fn kept<T>(s: Seq<T>, keep: Seq<bool>) -> Seq<T>
    decreases s.len(),
{
    if s.len() == 0 || keep.len() == 0 {
        Seq::empty()
    } else if keep.last() {
        kept(s.drop_last(), keep.drop_last()).push(s.last())
    } else {
        kept(s.drop_last(), keep.drop_last())
    }
}

/// What a company of the list is known to be: read from a complete data row.
pub open spec fn listed_company(c: CompanyView) -> bool {
    &&& is_ticker(c.ticker)
    &&& all_in_class(c.name, CharClass::UpperOrDigit)
    &&& is_altman_rating(c.altman)
    &&& exists|d: int| 0 <= d <= 9 && c.f_score_bits == #[trigger] digit_f32_bits(d)
}

/// The indicator texts that the indicators page holds: price to earnings,
/// return on equity, price to book value and price to tangible book value.
pub struct IndicatorTexts {
    pub pe: Option<String>,
    pub roe: Option<String>,
    pub p_bv: Option<String>,
    pub p_bvg: Option<String>,
}

pub open spec fn opt_seq(o: Option<String>) -> Option<Seq<char>> {
    match o {
        Some(s) => Some(s@),
        None => None,
    }
}

/// The indicator table has the cells the indicators are read from.
pub open spec fn indicator_rows_complete(rows: Seq<Seq<Seq<char>>>) -> bool {
    rows.len() == 11 ==> (rows[0].len() >= 2 && rows[1].len() >= 2 && rows[2].len() >= 2
        && rows[10].len() >= 2)
}

/// The indicator table read: with eleven rows, the values of the second cells
/// of rows 0, 10, 1 and 2; otherwise the link is wrong.
pub open spec fn indicators_read(
    rows: Seq<Seq<Seq<char>>>,
    link: Seq<char>,
    r: Result<IndicatorTexts, NotFoundError>,
) -> bool {
    if rows.len() == 11 {
        r matches Ok(t) && opt_seq(t.pe) == first_group(Pattern::Float, rows[0][1]) && opt_seq(
            t.roe,
        ) == first_group(Pattern::Float, rows[10][1]) && opt_seq(t.p_bv) == first_group(
            Pattern::Float,
            rows[1][1],
        ) && opt_seq(t.p_bvg) == first_group(Pattern::Float, rows[2][1])
    } else {
        r matches Err(NotFoundError::WrongLinkError(l)) && l@ == link
    }
}

/// The companies found and what selects them.
#[derive(Debug)]
pub struct RankedCompanies {
    companies_list: Vec<Company>,
    requirements: StockRequirements,
    url: String,
    url_provider: CompanyDataUrlProvider,
}

impl RankedCompanies {
    #[verifier::type_invariant]
    spec fn companies_read_from_rows(self) -> bool {
        forall|i: int| 0 <= i < self.companies_list@.len() ==> listed_company(#[trigger] self.companies_list@[i]@)
    }

    /// The companies, in order.
    pub closed spec fn companies(&self) -> Seq<CompanyView> {
        self.companies_list@.map_values(|c: Company| c@)
    }

    /// The accepted ratings: those of the requirements.
    pub open spec fn ratings(&self) -> Seq<Seq<char>> {
        ratings_seq(self.requirements_spec())
    }

    /// The requirements.
    pub closed spec fn requirements_spec(&self) -> StockRequirements {
        self.requirements
    }

    /// The address of the rating page.
    pub closed spec fn url_seq(&self) -> Seq<char> {
        self.url@
    }

    /// The provider of indicator links.
    pub closed spec fn provider(&self) -> CompanyDataUrlProvider {
        self.url_provider
    }

    /// No companies, the default requirements, the rating page of the Warsaw
    /// exchange, and indicator links on `strefainwestorow.pl` without rewriting.
    pub fn new() -> (r: Self)
        ensures
            r.companies() == Seq::<CompanyView>::empty(),
            r.ratings() == Seq::<Seq<char>>::empty(),
            r.requirements_spec().p_e_max_limit_bits == F32_HUNDRED_BITS,
            r.requirements_spec().roe_min_limit_bits == F32_ZERO_BITS,
            r.requirements_spec().dividend_years@.len() == 0,
            r.requirements_spec().p_bv_max_limit_bits == F32_HUNDRED_BITS,
            r.requirements_spec().p_bv_g_max_limit_bits == F32_HUNDRED_BITS,
            r.requirements_spec().ratings@.len() == 0,
            r.requirements_spec().f_score_min_limit_bits == F32_ZERO_BITS,
            r.url_seq() == "https://www.biznesradar.pl/spolki-rating/akcje_gpw"@,
            r.provider().base_seq() == "https://strefainwestorow.pl/notowania/gpw/"@,
            r.provider().modifier_entries() is None,
    {
        let r = Self {
            companies_list: Vec::new(),
            requirements: StockRequirements::default(),
            url: "https://www.biznesradar.pl/spolki-rating/akcje_gpw".to_string(),
            url_provider: CompanyDataUrlProvider::new(
                "https://strefainwestorow.pl/notowania/gpw/".to_string(),
                None,
            ),
        };
        assert(r.companies() =~= Seq::<CompanyView>::empty());
        assert(r.ratings() =~= Seq::<Seq<char>>::empty());
        r
    }

    /// Sets the requirements; the companies selected from then on are those
    /// with one of its ratings.
    pub fn update_requirements(&mut self, requirements: StockRequirements)
        ensures
            final(self).requirements_spec() == requirements,
            final(self).ratings() == ratings_seq(requirements),
            final(self).companies() == old(self).companies(),
            final(self).url_seq() == old(self).url_seq(),
            final(self).provider() == old(self).provider(),
    {
        proof {
            use_type_invariant(&*self);
        }
        self.requirements = requirements;
    }

    /// Sets the mapping by which indicator links are rewritten.
    pub fn update_url_mappings(&mut self, modifier: UrlsModifier)
        ensures
            final(self).provider().base_seq() == old(self).provider().base_seq(),
            final(self).provider().modifier_entries() == Some(modifier.entries()),
            final(self).companies() == old(self).companies(),
            final(self).requirements_spec() == old(self).requirements_spec(),
            final(self).url_seq() == old(self).url_seq(),
    {
        proof {
            use_type_invariant(&*self);
        }
        let mut provider = CompanyDataUrlProvider::default();
        std::mem::swap(&mut provider, &mut self.url_provider);
        provider.set_urls_modifier(modifier);
        self.url_provider = provider;
    }

    /// Sets the address of the rating page.
    pub fn set_companies_list_url(&mut self, url: String)
        ensures
            final(self).url_seq() == url@,
            final(self).companies() == old(self).companies(),
            final(self).requirements_spec() == old(self).requirements_spec(),
            final(self).provider() == old(self).provider(),
    {
        proof {
            use_type_invariant(&*self);
        }
        self.url = url;
    }

    /// Sets the provider of indicator links.
    pub fn set_company_data_url_provider(&mut self, provider: CompanyDataUrlProvider)
        ensures
            final(self).provider() == provider,
            final(self).companies() == old(self).companies(),
            final(self).requirements_spec() == old(self).requirements_spec(),
            final(self).url_seq() == old(self).url_seq(),
    {
        proof {
            use_type_invariant(&*self);
        }
        self.url_provider = provider;
    }

    /// The address of the rating page.
    pub fn url(&self) -> (r: &String)
        ensures
            r@ == self.url_seq(),
    {
        &self.url
    }

    /// The requirements.
    pub fn requirements(&self) -> (r: &StockRequirements)
        ensures
            *r == self.requirements_spec(),
    {
        &self.requirements
    }

    /// The companies, each read from a complete data row of the rating page.
    pub fn companies_list(&self) -> (r: &Vec<Company>)
        ensures
            r@.map_values(|c: Company| c@) == self.companies(),
            forall|i: int| 0 <= i < r@.len() ==> listed_company(#[trigger] r@[i]@),
    {
        proof {
            use_type_invariant(self);
        }
        &self.companies_list
    }

    /// Forgets the companies found, so that a new search starts afresh.
    pub fn clear_companies(&mut self)
        ensures
            final(self).companies() == Seq::<CompanyView>::empty(),
            final(self).requirements_spec() == old(self).requirements_spec(),
            final(self).ratings() == old(self).ratings(),
            final(self).url_seq() == old(self).url_seq(),
            final(self).provider() == old(self).provider(),
    {
        self.companies_list = Vec::new();
        assert(self.companies() =~= Seq::<CompanyView>::empty());
    }

    /// A row of the rating page holds data when it has four cells.
    pub fn is_the_row_with_data(cells: &[String]) -> (b: bool)
        ensures
            b == (cells@.len() == 4),
    {
        cells.len() == 4
    }

    /// Whether `altman` is among the accepted ratings.
    pub fn is_altman_ok(&self, altman: &String) -> (b: bool)
        ensures
            b == self.ratings().contains(altman@),
    {
        let ratings = &self.requirements.ratings;
        let n = ratings.len();
        let mut i: usize = 0;
        while i < n
            invariant
                n == ratings@.len(),
                *ratings == self.requirements.ratings,
                i <= n,
                forall|j: int| 0 <= j < i ==> ratings@[j]@ != altman@,
            decreases n - i,
        {
            if ratings[i] == *altman {
                assert(self.ratings()[i as int] == altman@);
                return true;
            }
            i = i + 1;
        }
        proof {
            if self.ratings().contains(altman@) {
                let j = choose|j: int| 0 <= j < self.ratings().len() && self.ratings()[j] == altman@;
                assert(ratings@[j]@ == altman@);
            }
        }
        false
    }

    /// The ticker in the HTML of a cell.
    pub fn get_ticker(html: String) -> (r: Result<String, NotFoundError>)
        ensures
            group_or(Pattern::Ticker, html@, NotFoundError::TickerError(), r),
    {
        Self::get_regex_from_html(html, Pattern::Ticker, NotFoundError::TickerError())
    }

    /// The company name in the HTML of a cell.
    pub fn get_name(html: String) -> (r: Result<String, NotFoundError>)
        ensures
            group_or(Pattern::Name, html@, NotFoundError::NameError(), r),
    {
        Self::get_regex_from_html(html, Pattern::Name, NotFoundError::NameError())
    }

    /// The Altman rating in the HTML of a cell.
    pub fn get_altman_rating(html: String) -> (r: Result<String, NotFoundError>)
        ensures
            group_or(Pattern::Altman, html@, NotFoundError::AltmanError(), r),
    {
        Self::get_regex_from_html(html, Pattern::Altman, NotFoundError::AltmanError())
    }

    /// The Piotroski F-score in the HTML of a cell.
    pub fn get_piotroski_f_score(html: String) -> (r: Result<String, NotFoundError>)
        ensures
            group_or(Pattern::FScore, html@, NotFoundError::FScoreError(), r),
    {
        Self::get_regex_from_html(html, Pattern::FScore, NotFoundError::FScoreError())
    }

    /// An indicator value in the HTML of a cell.
    pub fn get_float_value(html: String) -> (r: Result<String, NotFoundError>)
        ensures
            group_or(Pattern::Float, html@, NotFoundError::FloatError(), r),
    {
        Self::get_regex_from_html(html, Pattern::Float, NotFoundError::FloatError())
    }

    /// The group of the leftmost match of `pattern` in `html`, or `error`.
    pub fn get_regex_from_html(html: String, pattern: Pattern, error: NotFoundError) -> (r: Result<
        String,
        NotFoundError,
    >)
        ensures
            group_or(pattern, html@, error, r),
    {
        let chars = chars_of(html.as_str());
        proof {
            lemma_leftmost_is_match(pattern, html@, 0);
            if let Some((i, e)) = leftmost_from(pattern, html@, 0) {
                lemma_match_bounds(pattern, html@, i);
            }
        }
        match find_first(pattern, chars.as_slice()) {
            Some((i, e)) => {
                let group = vstd::slice::slice_subrange(chars.as_slice(), i + 1, e);
                Ok(string_from_chars(group))
            },
            None => Err(error),
        }
    }

    /// The company a row of the rating page makes, with its F-score digit.
    pub fn company_from_row(cells: &Vec<String>) -> (r: Option<(Company, u8)>)
        ensures
            match row_company(cells.deep_view()) {
                Some((n, t, a, d)) => r matches Some((c, d2)) && c@ == row_company_view(n, t, a, d)
                    && d2 == d && 0 <= d <= 9 && listed_company(c@),
                None => r is None,
            },
    {
        if !Self::is_the_row_with_data(cells.as_slice()) {
            return None;
        }
        let ghost cv = cells.deep_view();
        assert(cv[0] == cells@[0]@ && cv[2] == cells@[2]@ && cv[3] == cells@[3]@);
        let name = match Self::get_name(cells[0].clone()) {
            Ok(content) => content,
            Err(_) => match Self::get_ticker(cells[0].clone()) {
                Ok(content) => content,
                Err(_) => {
                    return None;
                },
            },
        };
        let ticker = match Self::get_ticker(cells[0].clone()) {
            Ok(content) => content,
            Err(_) => {
                return None;
            },
        };
        let altman = match Self::get_altman_rating(cells[2].clone()) {
            Ok(content) => content,
            Err(_) => {
                return None;
            },
        };
        let f_score = match Self::get_piotroski_f_score(cells[3].clone()) {
            Ok(content) => content,
            Err(_) => {
                return None;
            },
        };
        proof {
            lemma_first_group_shape(Pattern::Name, cv[0]);
            lemma_first_group_shape(Pattern::Ticker, cv[0]);
            lemma_first_group_shape(Pattern::Altman, cv[2]);
            lemma_first_group_shape(Pattern::FScore, cv[3]);
            assert forall|j: int| 0 <= j < name@.len() implies in_class(name@[j], CharClass::UpperOrDigit) by {
                if first_group(Pattern::Name, cv[0]) is None {
                    assert(in_class(ticker@[j], CharClass::UpperOrDigit));
                }
            }
        }
        let f_chars = chars_of(f_score.as_str());
        let digit_char = f_chars[0];
        let d = ((digit_char as u32) - ('0' as u32)) as u8;
        let mut company = Company::default();
        company.name = name;
        company.ticker = ticker;
        company.altman = altman;
        company.f_score_bits = digit_to_f32_bits(d);
        proof {
            assert(digit_f32_bits(d as int) == company.f_score_bits);
        }
        Some((company, d))
    }

    /// Adds, in row order, the companies that `rows` yield whose rating is
    /// accepted and whose F-score digit is at least `min_f_score` (the least
    /// digit that meets the F-score limit of the requirements, 10 when none
    /// does).
    pub fn get_companies_from_rows(&mut self, rows: &Vec<Vec<String>>, min_f_score: u8)
        ensures
            final(self).companies() == old(self).companies() + selected_companies(
                rows.deep_view(),
                old(self).ratings(),
                min_f_score as int,
            ),
            final(self).requirements_spec() == old(self).requirements_spec(),
            final(self).url_seq() == old(self).url_seq(),
            final(self).provider() == old(self).provider(),
    {
        proof {
            use_type_invariant(&*self);
        }
        let ghost start = self.companies();
        let ghost rv = rows.deep_view();
        let mut list: Vec<Company> = Vec::new();
        std::mem::swap(&mut list, &mut self.companies_list);
        let n = rows.len();
        let mut i: usize = 0;
        assert(rv.take(0).len() == 0);
        assert(start + selected_companies(rv.take(0), self.ratings(), min_f_score as int)
            =~= start);
        while i < n
            invariant
                n == rows@.len(),
                rv == rows.deep_view(),
                i <= n,
                list@.map_values(|c: Company| c@) == start + selected_companies(
                    rv.take(i as int),
                    self.ratings(),
                    min_f_score as int,
                ),
                forall|j: int| 0 <= j < list@.len() ==> listed_company(#[trigger] list@[j]@),
                self.ratings() == old(self).ratings(),
                self.requirements_spec() == old(self).requirements_spec(),
                self.url_seq() == old(self).url_seq(),
                self.provider() == old(self).provider(),
            decreases n - i,
        {
            let ghost before = list@.map_values(|c: Company| c@);
            proof {
                assert(rv.take(i + 1).drop_last() =~= rv.take(i as int));
                assert(rv.take(i + 1).last() == rows@[i as int].deep_view());
            }
            match Self::company_from_row(&rows[i]) {
                Some((company, d)) => {
                    if self.is_altman_ok(&company.altman) && d >= min_f_score {
                        let ghost c = company@;
                        list.push(company);
                        assert(list@.map_values(|c: Company| c@) =~= before.push(c));
                    }
                },
                None => {},
            }
            i = i + 1;
        }
        assert(rv.take(n as int) =~= rv);
        self.companies_list = list;
    }

    /// Reads the rating page `content` and adds the companies of its first
    /// table as `get_companies_from_rows` does; `false`, with nothing added,
    /// when the page has no table. Such a page is not a rating page: the
    /// caller reports it and stops, as the program does.
    pub fn get_companies(&mut self, content: &String, min_f_score: u8) -> (found: bool)
        ensures
            found == first_table_rows(content@) is Some,
            found ==> final(self).companies() == old(self).companies() + selected_companies(
                first_table_rows(content@).unwrap(),
                old(self).ratings(),
                min_f_score as int,
            ),
            !found ==> final(self).companies() == old(self).companies(),
            final(self).requirements_spec() == old(self).requirements_spec(),
            final(self).url_seq() == old(self).url_seq(),
            final(self).provider() == old(self).provider(),
    {
        match find_first_table(content.as_str()) {
            Some(rows) => {
                self.get_companies_from_rows(&rows, min_f_score);
                true
            },
            None => false,
        }
    }

    /// Sets the link of the company at `index` to its indicators page and
    /// returns it.
    pub fn update_company_link(&mut self, index: usize) -> (link: String)
        requires
            index < old(self).companies().len(),
        ensures
            link@ == old(self).provider().rewritten(
                lowercase(
                    indicators_link_seq(
                        old(self).provider().base_seq(),
                        old(self).companies()[index as int].name,
                        old(self).companies()[index as int].ticker,
                    ),
                ),
            ),
            final(self).companies() == old(self).companies().update(
                index as int,
                CompanyView { link: link@, ..old(self).companies()[index as int] },
            ),
            final(self).requirements_spec() == old(self).requirements_spec(),
            final(self).url_seq() == old(self).url_seq(),
            final(self).provider() == old(self).provider(),
    {
        proof {
            use_type_invariant(&*self);
        }
        let mut provider = CompanyDataUrlProvider::default();
        std::mem::swap(&mut provider, &mut self.url_provider);
        let link = provider.get_company_data_url(
            self.companies_list[index].name.as_str(),
            self.companies_list[index].ticker.as_str(),
        );
        self.url_provider = provider;
        let mut company = self.companies_list[index].clone();
        company.link = link.clone();
        let ghost c = company@;
        assert(listed_company(self.companies_list@[index as int]@));
        let mut list: Vec<Company> = Vec::new();
        std::mem::swap(&mut list, &mut self.companies_list);
        list.set(index, company);
        self.companies_list = list;
        assert(self.companies() =~= old(self).companies().update(index as int, c));
        link
    }

    /// Sets the indicators of the company at `index` that are given.
    pub fn set_company_indicators(
        &mut self,
        index: usize,
        pe_bits: Option<u32>,
        roe_bits: Option<u32>,
        p_bv_bits: Option<u32>,
        p_bvg_bits: Option<u32>,
    )
        requires
            index < old(self).companies().len(),
        ensures
            final(self).companies() == old(self).companies().update(
                index as int,
                CompanyView {
                    pe_bits: match pe_bits {
                        Some(b) => b,
                        None => old(self).companies()[index as int].pe_bits,
                    },
                    roe_bits: match roe_bits {
                        Some(b) => b,
                        None => old(self).companies()[index as int].roe_bits,
                    },
                    p_bv_bits: match p_bv_bits {
                        Some(b) => b,
                        None => old(self).companies()[index as int].p_bv_bits,
                    },
                    p_bvg_bits: match p_bvg_bits {
                        Some(b) => b,
                        None => old(self).companies()[index as int].p_bvg_bits,
                    },
                    ..old(self).companies()[index as int]
                },
            ),
            final(self).requirements_spec() == old(self).requirements_spec(),
            final(self).url_seq() == old(self).url_seq(),
            final(self).provider() == old(self).provider(),
    {
        proof {
            use_type_invariant(&*self);
        }
        let mut company = self.companies_list[index].clone();
        if let Some(b) = pe_bits {
            company.pe_bits = b;
        }
        if let Some(b) = roe_bits {
            company.roe_bits = b;
        }
        if let Some(b) = p_bv_bits {
            company.p_bv_bits = b;
        }
        if let Some(b) = p_bvg_bits {
            company.p_bvg_bits = b;
        }
        let ghost c = company@;
        assert(listed_company(self.companies_list@[index as int]@));
        let mut list: Vec<Company> = Vec::new();
        std::mem::swap(&mut list, &mut self.companies_list);
        list.set(index, company);
        self.companies_list = list;
        assert(self.companies() =~= old(self).companies().update(index as int, c));
    }

    /// The indicator texts of an indicator table: with eleven rows, the
    /// values in the second cells of rows 0, 10, 1 and 2 (price to earnings,
    /// return on equity, price to book value, price to tangible book value);
    /// otherwise a wrong-link error for `link`.
    pub fn indicators_from_rows(rows: &Vec<Vec<String>>, link: String) -> (r: Result<
        IndicatorTexts,
        NotFoundError,
    >)
        requires
            indicator_rows_complete(rows.deep_view()),
        ensures
            indicators_read(rows.deep_view(), link@, r),
    {
        let ghost rv = rows.deep_view();
        if rows.len() != 11 {
            return Err(NotFoundError::WrongLinkError(link));
        }
        assert(rv[0] == rows@[0].deep_view() && rv[1] == rows@[1].deep_view() && rv[2]
            == rows@[2].deep_view() && rv[10] == rows@[10].deep_view());
        assert(rv[0][1] == rows@[0]@[1]@ && rv[1][1] == rows@[1]@[1]@ && rv[2][1] == rows@[2]@[1]@
            && rv[10][1] == rows@[10]@[1]@);
        let pe = Self::get_float_value(rows[0][1].clone()).ok();
        let roe = Self::get_float_value(rows[10][1].clone()).ok();
        let p_bv = Self::get_float_value(rows[1][1].clone()).ok();
        let p_bvg = Self::get_float_value(rows[2][1].clone()).ok();
        Ok(IndicatorTexts { pe, roe, p_bv, p_bvg })
    }

    /// Reads the indicators page `content` of the company behind `link` as
    /// `indicators_from_rows` does with the rows of its first table; `None`
    /// when the page has no table, or a table of eleven rows without the
    /// cells the values are read from.
    pub fn read_indicators(content: &String, link: String) -> (r: Option<
        Result<IndicatorTexts, NotFoundError>,
    >)
        ensures
            match first_table_rows(content@) {
                Some(rows) => if indicator_rows_complete(rows) {
                    r matches Some(x) && indicators_read(rows, link@, x)
                } else {
                    r is None
                },
                None => r is None,
            },
    {
        match find_first_table(content.as_str()) {
            Some(rows) => {
                let ghost rv = rows.deep_view();
                if rows.len() == 11 {
                    if rows[0].len() < 2 || rows[1].len() < 2 || rows[2].len() < 2 || rows[10].len()
                        < 2 {
                        assert(!indicator_rows_complete(rv));
                        return None;
                    }
                }
                Some(Self::indicators_from_rows(&rows, link))
            },
            None => None,
        }
    }

    /// Keeps the companies whose flag in `keep` is set, in order.
    pub fn filter_best_companies(&mut self, keep: &Vec<bool>)
        requires
            keep@.len() == old(self).companies().len(),
        ensures
            final(self).companies() == kept(old(self).companies(), keep@),
            final(self).requirements_spec() == old(self).requirements_spec(),
            final(self).url_seq() == old(self).url_seq(),
            final(self).provider() == old(self).provider(),
    {
        proof {
            use_type_invariant(&*self);
        }
        let ghost all = self.companies();
        let mut companies_after_update: Vec<Company> = Vec::new();
        let n = self.companies_list.len();
        let mut i: usize = 0;
        assert(kept(all.take(0), keep@.take(0)) =~= Seq::<CompanyView>::empty());
        while i < n
            invariant
                n == self.companies_list@.len(),
                all == self.companies(),
                keep@.len() == n,
                i <= n,
                companies_after_update@.map_values(|c: Company| c@) == kept(
                    all.take(i as int),
                    keep@.take(i as int),
                ),
                forall|j: int| 0 <= j < self.companies_list@.len() ==> listed_company(#[trigger] self.companies_list@[j]@),
                forall|j: int| 0 <= j < companies_after_update@.len() ==> listed_company(#[trigger] companies_after_update@[j]@),
            decreases n - i,
        {
            proof {
                assert(all.take(i + 1).drop_last() =~= all.take(i as int));
                assert(keep@.take(i + 1).drop_last() =~= keep@.take(i as int));
                assert(all.take(i + 1).last() == self.companies_list@[i as int]@);
            }
            if keep[i] {
                let ghost before = companies_after_update@.map_values(|c: Company| c@);
                let c = self.companies_list[i].clone();
                assert(listed_company(self.companies_list@[i as int]@));
                companies_after_update.push(c);
                assert(companies_after_update@.map_values(|c: Company| c@) =~= before.push(
                    self.companies_list@[i as int]@,
                ));
            }
            i = i + 1;
        }
        assert(all.take(n as int) =~= all);
        assert(keep@.take(n as int) =~= keep@);
        self.companies_list = companies_after_update;
    }
}

// ----- laws -----

/// Row `row` makes company `c`.
pub open spec fn row_makes(row: Seq<Seq<char>>, c: CompanyView) -> bool {
    match row_company(row) {
        Some((n, t, a, d)) => c == row_company_view(n, t, a, d),
        None => false,
    }
}

/// Every company that reading rows adds has an accepted rating, an F-score
/// digit of at least `min_f_score`, and was read from a complete data row; no
/// more companies are added than there are rows.
pub proof fn lemma_selected_meet_requirements(
    rows: Seq<Seq<Seq<char>>>,
    ratings: Seq<Seq<char>>,
    min_f_score: int,
)
    ensures
        selected_companies(rows, ratings, min_f_score).len() <= rows.len(),
        forall|k: int|
            0 <= k < selected_companies(rows, ratings, min_f_score).len() ==> {
                let c = #[trigger] selected_companies(rows, ratings, min_f_score)[k];
                &&& ratings.contains(c.altman)
                &&& exists|d: int| min_f_score <= d <= 9 && c.f_score_bits == #[trigger] digit_f32_bits(d)
                &&& exists|j: int| 0 <= j < rows.len() && row_makes(#[trigger] rows[j], c)
            },
    decreases rows.len(),
{
    if rows.len() > 0 {
        let before = selected_companies(rows.drop_last(), ratings, min_f_score);
        lemma_selected_meet_requirements(rows.drop_last(), ratings, min_f_score);
        let all = selected_companies(rows, ratings, min_f_score);
        assert forall|k: int| 0 <= k < all.len() implies {
            let c = #[trigger] all[k];
            &&& ratings.contains(c.altman)
            &&& exists|d: int| min_f_score <= d <= 9 && c.f_score_bits == #[trigger] digit_f32_bits(d)
            &&& exists|j: int| 0 <= j < rows.len() && row_makes(#[trigger] rows[j], c)
        } by {
            if k < before.len() {
                assert(all[k] == before[k]);
                let c = before[k];
                let j = choose|j: int|
                    0 <= j < rows.drop_last().len() && row_makes(#[trigger] rows.drop_last()[j], c);
                assert(rows.drop_last()[j] == rows[j]);
            } else {
                let j = rows.len() - 1;
                assert(rows.last() == rows[j]);
                if let Some((n, t, a, d)) = row_company(rows.last()) {
                    lemma_first_group_shape(Pattern::FScore, rows.last()[3]);
                }
            }
        }
    }
}

/// Narrowing keeps companies of the list, in order, and never more of them.
pub proof fn lemma_kept_is_sublist<T>(s: Seq<T>, keep: Seq<bool>)
    requires
        keep.len() == s.len(),
    ensures
        kept(s, keep).len() <= s.len(),
        forall|k: int| 0 <= k < kept(s, keep).len() ==> s.contains(#[trigger] kept(s, keep)[k]),
    decreases s.len(),
{
    if s.len() > 0 {
        lemma_kept_is_sublist(s.drop_last(), keep.drop_last());
        assert forall|k: int| 0 <= k < kept(s, keep).len() implies s.contains(
            #[trigger] kept(s, keep)[k],
        ) by {
            let before = kept(s.drop_last(), keep.drop_last());
            if k < before.len() {
                assert(kept(s, keep)[k] == before[k]);
                let j = choose|j: int| 0 <= j < s.drop_last().len() && s.drop_last()[j] == before[k];
                assert(s[j] == before[k]);
            } else {
                assert(kept(s, keep)[k] == s[s.len() - 1]);
            }
        }
    }
}

/// Two searches of the same rating page, each started from an empty list
/// under the same requirements, find the same companies, none twice over.
pub proof fn lemma_search_afresh_repeats(
    start1: RankedCompanies,
    found1: RankedCompanies,
    start2: RankedCompanies,
    found2: RankedCompanies,
    content: Seq<char>,
    min_f_score: int,
)
    requires
        start1.companies().len() == 0,
        start2.companies().len() == 0,
        start2.requirements_spec() == start1.requirements_spec(),
        first_table_rows(content) is Some,
        found1.companies() == start1.companies() + selected_companies(
            first_table_rows(content).unwrap(),
            start1.ratings(),
            min_f_score,
        ),
        found2.companies() == start2.companies() + selected_companies(
            first_table_rows(content).unwrap(),
            start2.ratings(),
            min_f_score,
        ),
    ensures
        found2.companies() == found1.companies(),
        found1.companies() == selected_companies(
            first_table_rows(content).unwrap(),
            ratings_seq(start1.requirements_spec()),
            min_f_score,
        ),
{
    assert(start1.companies() + selected_companies(
        first_table_rows(content).unwrap(),
        start1.ratings(),
        min_f_score,
    ) =~= selected_companies(first_table_rows(content).unwrap(), start1.ratings(), min_f_score));
    assert(start2.companies() + selected_companies(
        first_table_rows(content).unwrap(),
        start2.ratings(),
        min_f_score,
    ) =~= selected_companies(first_table_rows(content).unwrap(), start2.ratings(), min_f_score));
}

/// A row yields no company when it has other than four cells, or when its
/// rating cell has no `>` before a rating (a company without an Altman
/// rating, such as a bank), or when its F-score cell has no `>`.
pub proof fn lemma_row_unreadable(cells: Seq<Seq<char>>)
    requires
        cells.len() != 4 || (forall|m: int| 0 <= m < cells[2].len() ==> cells[2][m] != '>') || (forall|
            m: int,
        |
            0 <= m < cells[3].len() ==> cells[3][m] != '>'),
    ensures
        row_company(cells) is None,
{
    if cells.len() == 4 {
        if forall|m: int| 0 <= m < cells[2].len() ==> cells[2][m] != '>' {
            crate::patterns::lemma_no_group_without_opening(Pattern::Altman, cells[2]);
        } else {
            crate::patterns::lemma_no_group_without_opening(Pattern::FScore, cells[3]);
        }
    }
}

/// A first cell with a ticker after `>` and no name in parentheses gives the
/// ticker as the company's name too.
pub proof fn lemma_row_name_falls_back_to_ticker(
    pre0: Seq<char>,
    t: Seq<char>,
    rest0: Seq<char>,
    cell1: Seq<char>,
    pre2: Seq<char>,
    v: Seq<char>,
    rest2: Seq<char>,
    pre3: Seq<char>,
    d: char,
    rest3: Seq<char>,
)
    requires
        is_ticker(t),
        in_class(d, CharClass::Digit),
        is_altman_rating(v),
        forall|m: int| 0 <= m < pre0.len() ==> pre0[m] != '>',
        forall|m: int|
            0 <= m < (pre0 + seq!['>'] + t + rest0).len() ==> (pre0 + seq!['>'] + t + rest0)[m] != '(',
        forall|m: int| 0 <= m < pre2.len() ==> pre2[m] != '>',
        forall|m: int| 0 <= m < pre3.len() ==> pre3[m] != '>',
    ensures
        row_company(
            seq![
                pre0 + seq!['>'] + t + rest0,
                cell1,
                pre2 + seq!['>'] + v + crate::patterns::span_close() + rest2,
                pre3 + seq!['>', d] + crate::patterns::span_close() + rest3,
            ],
        ) == Some((t, t, v, (d as int) - ('0' as int))),
{
    let cell0 = pre0 + seq!['>'] + t + rest0;
    let cell2 = pre2 + seq!['>'] + v + crate::patterns::span_close() + rest2;
    let cell3 = pre3 + seq!['>', d] + crate::patterns::span_close() + rest3;
    crate::patterns::lemma_no_group_without_opening(Pattern::Name, cell0);
    crate::patterns::lemma_ticker_read_back(pre0, t, rest0);
    crate::patterns::lemma_altman_read_back(pre2, v, rest2);
    crate::patterns::lemma_f_score_read_back(pre3, d, rest3);
    let row = seq![cell0, cell1, cell2, cell3];
    assert(row[0] == cell0 && row[2] == cell2 && row[3] == cell3);
}

/// Selection goes row by row: the rows of one table followed by those of
/// another select the companies of the first followed by those of the
/// second, so a row that yields an accepted company adds it whatever rows
/// (readable or not) stand before it.
pub proof fn lemma_selected_concat(
    first: Seq<Seq<Seq<char>>>,
    second: Seq<Seq<Seq<char>>>,
    ratings: Seq<Seq<char>>,
    min_f_score: int,
)
    ensures
        selected_companies(first + second, ratings, min_f_score) == selected_companies(
            first,
            ratings,
            min_f_score,
        ) + selected_companies(second, ratings, min_f_score),
    decreases second.len(),
{
    if second.len() == 0 {
        assert(first + second =~= first);
        assert(selected_companies(first, ratings, min_f_score) + selected_companies(
            second,
            ratings,
            min_f_score,
        ) =~= selected_companies(first, ratings, min_f_score));
    } else {
        lemma_selected_concat(first, second.drop_last(), ratings, min_f_score);
        assert((first + second).drop_last() =~= first + second.drop_last());
        assert((first + second).last() == second.last());
        let a = selected_companies(first, ratings, min_f_score);
        let b = selected_companies(second.drop_last(), ratings, min_f_score);
        match row_company(second.last()) {
            Some((n, t, v, d)) => {
                if ratings.contains(v) && d >= min_f_score {
                    assert((a + b).push(row_company_view(n, t, v, d)) =~= a + b.push(
                        row_company_view(n, t, v, d),
                    ));
                }
            },
            None => {},
        }
    }
}

/// A row that yields no company adds nothing, wherever it stands.
pub proof fn lemma_selected_skips_unreadable_row(
    before: Seq<Seq<Seq<char>>>,
    row: Seq<Seq<char>>,
    after: Seq<Seq<Seq<char>>>,
    ratings: Seq<Seq<char>>,
    min_f_score: int,
)
    requires
        row_company(row) is None,
    ensures
        selected_companies(before.push(row) + after, ratings, min_f_score) == selected_companies(
            before,
            ratings,
            min_f_score,
        ) + selected_companies(after, ratings, min_f_score),
{
    lemma_selected_concat(before.push(row), after, ratings, min_f_score);
    assert(before.push(row).drop_last() =~= before);
}

/// Narrowing goes entry by entry: a company with its flag set is kept after
/// those kept before it, and one with its flag unset is left out.
pub proof fn lemma_kept_push<T>(s: Seq<T>, keep: Seq<bool>, x: T, flag: bool)
    requires
        keep.len() == s.len(),
    ensures
        kept(s.push(x), keep.push(flag)) == if flag {
            kept(s, keep).push(x)
        } else {
            kept(s, keep)
        },
{
    assert(s.push(x).drop_last() =~= s);
    assert(keep.push(flag).drop_last() =~= keep);
}

/// The number of flags set in `keep`.
pub open spec fn flags_set(keep: Seq<bool>) -> nat
    decreases keep.len(),
{
    if keep.len() == 0 {
        0
    } else {
        flags_set(keep.drop_last()) + if keep.last() {
            1nat
        } else {
            0nat
        }
    }
}

/// Narrowing keeps as many companies as there are flags set.
pub proof fn lemma_kept_len<T>(s: Seq<T>, keep: Seq<bool>)
    requires
        keep.len() == s.len(),
    ensures
        kept(s, keep).len() == flags_set(keep),
    decreases s.len(),
{
    if s.len() > 0 {
        lemma_kept_len(s.drop_last(), keep.drop_last());
    }
}

/// Every company that a narrowing keeps passes the test by which its flag
/// was set.
pub proof fn lemma_kept_pass<T>(s: Seq<T>, keep: Seq<bool>, pass: spec_fn(T) -> bool)
    requires
        keep.len() == s.len(),
        forall|i: int| 0 <= i < s.len() ==> keep[i] == pass(#[trigger] s[i]),
    ensures
        forall|k: int| 0 <= k < kept(s, keep).len() ==> pass(#[trigger] kept(s, keep)[k]),
    decreases s.len(),
{
    if s.len() > 0 {
        let (rest, flags) = (s.drop_last(), keep.drop_last());
        assert forall|i: int| 0 <= i < rest.len() implies flags[i] == pass(#[trigger] rest[i]) by {
            assert(rest[i] == s[i]);
        }
        lemma_kept_pass(rest, flags, pass);
        assert forall|k: int| 0 <= k < kept(s, keep).len() implies pass(#[trigger] kept(s, keep)[k]) by {
            if k < kept(rest, flags).len() {
                assert(kept(s, keep)[k] == kept(rest, flags)[k]);
            } else {
                assert(keep[s.len() - 1] == pass(s[s.len() - 1]));
            }
        }
    }
}

/// Narrowing the list a second time, with flags set by the same test on each
/// company, leaves the list that the first narrowing gave.
pub proof fn lemma_kept_twice<T>(
    s: Seq<T>,
    keep: Seq<bool>,
    again: Seq<bool>,
    pass: spec_fn(T) -> bool,
)
    requires
        keep.len() == s.len(),
        forall|i: int| 0 <= i < s.len() ==> keep[i] == pass(#[trigger] s[i]),
        again.len() == kept(s, keep).len(),
        forall|j: int| 0 <= j < again.len() ==> again[j] == pass(#[trigger] kept(s, keep)[j]),
    ensures
        kept(kept(s, keep), again) == kept(s, keep),
{
    lemma_kept_pass(s, keep, pass);
    assert forall|j: int| 0 <= j < again.len() implies #[trigger] again[j] by {
        assert(pass(kept(s, keep)[j]));
    }
    lemma_kept_all_or_none(kept(s, keep), again);
}

/// Calling `filter_best_companies` a second time, with flags set by the same
/// test on each company as the first time, leaves the companies that the first
/// call kept.
pub proof fn lemma_filter_best_companies_twice(
    before: RankedCompanies,
    once: RankedCompanies,
    twice: RankedCompanies,
    keep: Seq<bool>,
    again: Seq<bool>,
    pass: spec_fn(CompanyView) -> bool,
)
    requires
        keep.len() == before.companies().len(),
        forall|i: int| 0 <= i < keep.len() ==> keep[i] == pass(#[trigger] before.companies()[i]),
        once.companies() == kept(before.companies(), keep),
        again.len() == once.companies().len(),
        forall|j: int| 0 <= j < again.len() ==> again[j] == pass(#[trigger] once.companies()[j]),
        twice.companies() == kept(once.companies(), again),
    ensures
        twice.companies() == once.companies(),
{
    lemma_kept_twice(before.companies(), keep, again, pass);
}

/// Narrowing with every flag set keeps the whole list, and with none set
/// keeps nothing.
pub proof fn lemma_kept_all_or_none<T>(s: Seq<T>, keep: Seq<bool>)
    requires
        keep.len() == s.len(),
    ensures
        (forall|k: int| 0 <= k < keep.len() ==> keep[k]) ==> kept(s, keep) == s,
        (forall|k: int| 0 <= k < keep.len() ==> !keep[k]) ==> kept(s, keep).len() == 0,
    decreases s.len(),
{
    if s.len() > 0 {
        lemma_kept_all_or_none(s.drop_last(), keep.drop_last());
        if forall|k: int| 0 <= k < keep.len() ==> keep[k] {
            assert(keep.last());
            assert forall|k: int| 0 <= k < keep.drop_last().len() implies keep.drop_last()[k] by {
                assert(keep.drop_last()[k] == keep[k]);
            }
            assert(kept(s, keep) =~= s);
        }
        if forall|k: int| 0 <= k < keep.len() ==> !keep[k] {
            assert(!keep.last());
            assert forall|k: int| 0 <= k < keep.drop_last().len() implies !keep.drop_last()[k] by {
                assert(keep.drop_last()[k] == keep[k]);
            }
        }
    } else {
        assert(kept(s, keep) =~= s);
    }
}

/// A data row written as the rating page writes it (the ticker after `>` and
/// the name in parentheses in the first cell, the rating between `>` and
/// `</span>` in the third, the F-score digit between `>` and `</span>` in the
/// fourth, each behind text without the opening character) is read as that
/// company; with its rating accepted and its F-score at least `min_f_score`,
/// reading the row adds exactly that company.
pub proof fn lemma_row_read_back(
    pre0: Seq<char>,
    t: Seq<char>,
    n: Seq<char>,
    rest0: Seq<char>,
    cell1: Seq<char>,
    pre2: Seq<char>,
    v: Seq<char>,
    rest2: Seq<char>,
    pre3: Seq<char>,
    d: char,
    rest3: Seq<char>,
    ratings: Seq<Seq<char>>,
    min_f_score: int,
)
    requires
        is_ticker(t),
        all_in_class(n, CharClass::UpperOrDigit),
        is_altman_rating(v),
        in_class(d, CharClass::Digit),
        forall|m: int| 0 <= m < pre0.len() ==> pre0[m] != '>' && pre0[m] != '(',
        forall|m: int| 0 <= m < pre2.len() ==> pre2[m] != '>',
        forall|m: int| 0 <= m < pre3.len() ==> pre3[m] != '>',
    ensures
        ({
            let row = seq![
                pre0 + seq!['>'] + t + seq![' ', '('] + n + seq![')'] + rest0,
                cell1,
                pre2 + seq!['>'] + v + crate::patterns::span_close() + rest2,
                pre3 + seq!['>', d] + crate::patterns::span_close() + rest3,
            ];
            &&& row_company(row) == Some((n, t, v, (d as int) - ('0' as int)))
            &&& (ratings.contains(v) && (d as int) - ('0' as int) >= min_f_score) ==> selected_companies(
                seq![row],
                ratings,
                min_f_score,
            ) == seq![row_company_view(n, t, v, (d as int) - ('0' as int))]
        }),
{
    let cell0 = pre0 + seq!['>'] + t + seq![' ', '('] + n + seq![')'] + rest0;
    let row = seq![
        cell0,
        cell1,
        pre2 + seq!['>'] + v + crate::patterns::span_close() + rest2,
        pre3 + seq!['>', d] + crate::patterns::span_close() + rest3,
    ];
    let after_t = seq![' ', '('] + n + seq![')'] + rest0;
    assert(cell0 =~= pre0 + seq!['>'] + t + after_t);
    lemma_ticker_read_back(pre0, t, after_t);
    let name_pre = pre0 + seq!['>'] + t + seq![' '];
    assert forall|m: int| 0 <= m < name_pre.len() implies name_pre[m] != '(' by {
        if m > pre0.len() && m < pre0.len() + 4 {
            assert(name_pre[m] == t[m - pre0.len() - 1]);
            assert(in_class(t[m - pre0.len() - 1], CharClass::UpperOrDigit));
        }
    }
    assert(cell0 =~= name_pre + seq!['('] + n + seq![')'] + rest0);
    lemma_name_read_back(name_pre, n, rest0);
    lemma_altman_read_back(pre2, v, rest2);
    lemma_f_score_read_back(pre3, d, rest3);
    assert(row[0] == cell0);
    assert(seq![d][0] == d);
    assert(row.len() == 4 && row[2] == pre2 + seq!['>'] + v + crate::patterns::span_close() + rest2);
    assert(row[3] == pre3 + seq!['>', d] + crate::patterns::span_close() + rest3);
    assert(row_company(row) == Some((n, t, v, (d as int) - ('0' as int))));
    assert(seq![row].drop_last() =~= Seq::<Seq<Seq<char>>>::empty());
    assert(seq![row].last() == row);
    assert(Seq::<CompanyView>::empty().push(row_company_view(n, t, v, (d as int) - ('0' as int)))
        =~= seq![row_company_view(n, t, v, (d as int) - ('0' as int))]);
    assert(selected_companies(Seq::<Seq<Seq<char>>>::empty(), ratings, min_f_score).len() == 0);
    assert(selected_companies(Seq::<Seq<Seq<char>>>::empty(), ratings, min_f_score)
        =~= Seq::<CompanyView>::empty());
    if ratings.contains(v) && (d as int) - ('0' as int) >= min_f_score {
        assert(selected_companies(seq![row], ratings, min_f_score) == Seq::<CompanyView>::empty().push(
            row_company_view(n, t, v, (d as int) - ('0' as int)),
        ));
    }
}

} // verus!
