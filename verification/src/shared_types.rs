//! The records that the services exchange: the requirements a company must
//! meet, the companies found, and a server's address.
//!
//! Single-precision values are held as their IEEE-754 bit patterns
//! (`f32::to_bits`): the library carries them without reading them.

use vstd::prelude::*;
use crate::urls::{indicators_link_seq, modify_seq, UrlsModifier};

verus! {

broadcast use vstd::string::group_string_axioms;

/// The bit pattern of the single-precision value `0.0`.
pub const F32_ZERO_BITS: u32 = 0x0000_0000u32;

/// The bit pattern of the single-precision value `100.0`.
pub const F32_HUNDRED_BITS: u32 = 0x42C8_0000u32;

/// The bit pattern of the single-precision value of the decimal digit `d`.
pub open spec fn digit_f32_bits(d: int) -> u32 {
    if d == 0 {
        0x0000_0000u32
    } else if d == 1 {
        0x3F80_0000u32
    } else if d == 2 {
        0x4000_0000u32
    } else if d == 3 {
        0x4040_0000u32
    } else if d == 4 {
        0x4080_0000u32
    } else if d == 5 {
        0x40A0_0000u32
    } else if d == 6 {
        0x40C0_0000u32
    } else if d == 7 {
        0x40E0_0000u32
    } else if d == 8 {
        0x4100_0000u32
    } else {
        0x4110_0000u32
    }
}

/// The bit pattern of the single-precision value of the decimal digit `d`.
pub fn digit_to_f32_bits(d: u8) -> (b: u32)
    requires
        d <= 9,
    ensures
        b == digit_f32_bits(d as int),
{
    match d {
        0 => 0x0000_0000u32,
        1 => 0x3F80_0000u32,
        2 => 0x4000_0000u32,
        3 => 0x4040_0000u32,
        4 => 0x4080_0000u32,
        5 => 0x40A0_0000u32,
        6 => 0x40C0_0000u32,
        7 => 0x40E0_0000u32,
        8 => 0x4100_0000u32,
        _ => 0x4110_0000u32,
    }
}

/// The limits that a company's indicators must respect.
#[derive(Debug)]
pub struct StockRequirements {
    pub p_e_max_limit_bits: u32,
    pub roe_min_limit_bits: u32,
    pub dividend_years: Vec<String>,
    pub p_bv_max_limit_bits: u32,
    pub p_bv_g_max_limit_bits: u32,
    pub ratings: Vec<String>,
    pub f_score_min_limit_bits: u32,
}

/// The accepted Altman ratings, as text.
pub open spec fn ratings_seq(r: StockRequirements) -> Seq<Seq<char>> {
    r.ratings@.map_values(|s: String| s@)
}

impl StockRequirements {
    /// Requirements that let every rating-independent value through: price to
    /// earnings and price to book values up to 100, return on equity and
    /// F-score from 0, and no accepted rating.
    pub fn new() -> (r: Self)
        ensures
            r.p_e_max_limit_bits == F32_HUNDRED_BITS,
            r.roe_min_limit_bits == F32_ZERO_BITS,
            r.dividend_years@.len() == 0,
            r.p_bv_max_limit_bits == F32_HUNDRED_BITS,
            r.p_bv_g_max_limit_bits == F32_HUNDRED_BITS,
            r.ratings@.len() == 0,
            r.f_score_min_limit_bits == F32_ZERO_BITS,
    {
        StockRequirements::default()
    }
}

impl Clone for StockRequirements {
    fn clone(&self) -> (r: Self)
        ensures
            r.p_e_max_limit_bits == self.p_e_max_limit_bits,
            r.roe_min_limit_bits == self.roe_min_limit_bits,
            r.dividend_years@ == self.dividend_years@,
            r.p_bv_max_limit_bits == self.p_bv_max_limit_bits,
            r.p_bv_g_max_limit_bits == self.p_bv_g_max_limit_bits,
            r.ratings@ == self.ratings@,
            r.f_score_min_limit_bits == self.f_score_min_limit_bits,
    {
        StockRequirements {
            p_e_max_limit_bits: self.p_e_max_limit_bits,
            roe_min_limit_bits: self.roe_min_limit_bits,
            dividend_years: clone_strings(&self.dividend_years),
            p_bv_max_limit_bits: self.p_bv_max_limit_bits,
            p_bv_g_max_limit_bits: self.p_bv_g_max_limit_bits,
            ratings: clone_strings(&self.ratings),
            f_score_min_limit_bits: self.f_score_min_limit_bits,
        }
    }
}

impl Default for StockRequirements {
    fn default() -> (r: Self)
        ensures
            r.p_e_max_limit_bits == F32_HUNDRED_BITS,
            r.roe_min_limit_bits == F32_ZERO_BITS,
            r.dividend_years@.len() == 0,
            r.p_bv_max_limit_bits == F32_HUNDRED_BITS,
            r.p_bv_g_max_limit_bits == F32_HUNDRED_BITS,
            r.ratings@.len() == 0,
            r.f_score_min_limit_bits == F32_ZERO_BITS,
    {
        Self {
            p_e_max_limit_bits: F32_HUNDRED_BITS,
            roe_min_limit_bits: F32_ZERO_BITS,
            dividend_years: Vec::new(),
            p_bv_max_limit_bits: F32_HUNDRED_BITS,
            p_bv_g_max_limit_bits: F32_HUNDRED_BITS,
            ratings: Vec::new(),
            f_score_min_limit_bits: F32_ZERO_BITS,
        }
    }
}

/// The base of the indicators links of companies.
pub open spec fn default_base_link() -> Seq<char> {
    "https://strefainwestorow.pl/notowania/gpw/"@
}

/// A company with what is known of it.
#[derive(Debug)]
pub struct Company {
    pub name: String,
    pub ticker: String,
    pub base_link: String,
    pub link: String,
    pub altman: String,
    pub f_score_bits: u32,
    pub pe_bits: u32,
    pub roe_bits: u32,
    pub p_bv_bits: u32,
    pub p_bvg_bits: u32,
    pub dividend_years: Vec<String>,
}

/// A company, with its texts as character sequences.
pub struct CompanyView {
    pub name: Seq<char>,
    pub ticker: Seq<char>,
    pub base_link: Seq<char>,
    pub link: Seq<char>,
    pub altman: Seq<char>,
    pub f_score_bits: u32,
    pub pe_bits: u32,
    pub roe_bits: u32,
    pub p_bv_bits: u32,
    pub p_bvg_bits: u32,
    pub dividend_years: Seq<Seq<char>>,
}

impl View for Company {
    type V = CompanyView;

    open spec fn view(&self) -> CompanyView {
        CompanyView {
            name: self.name@,
            ticker: self.ticker@,
            base_link: self.base_link@,
            link: self.link@,
            altman: self.altman@,
            f_score_bits: self.f_score_bits,
            pe_bits: self.pe_bits,
            roe_bits: self.roe_bits,
            p_bv_bits: self.p_bv_bits,
            p_bvg_bits: self.p_bvg_bits,
            dividend_years: self.dividend_years@.map_values(|s: String| s@),
        }
    }
}

/// A company of which nothing is known yet.
pub open spec fn default_company() -> CompanyView {
    CompanyView {
        name: Seq::empty(),
        ticker: Seq::empty(),
        base_link: default_base_link(),
        link: Seq::empty(),
        altman: Seq::empty(),
        f_score_bits: F32_ZERO_BITS,
        pe_bits: F32_ZERO_BITS,
        roe_bits: F32_ZERO_BITS,
        p_bv_bits: F32_ZERO_BITS,
        p_bvg_bits: F32_ZERO_BITS,
        dividend_years: Seq::empty(),
    }
}

fn clone_strings(v: &Vec<String>) -> (r: Vec<String>)
    ensures
        r@ == v@,
        r@.map_values(|s: String| s@) == v@.map_values(|s: String| s@),
{
    let mut r: Vec<String> = Vec::new();
    let n = v.len();
    let mut i: usize = 0;
    while i < n
        invariant
            n == v@.len(),
            i <= n,
            r@.len() == i,
            forall|j: int| 0 <= j < i ==> r@[j] == v@[j],
        decreases n - i,
    {
        r.push(v[i].clone());
        i = i + 1;
    }
    assert(r@ =~= v@);
    assert(r@.map_values(|s: String| s@) =~= v@.map_values(|s: String| s@));
    r
}

impl Clone for Company {
    fn clone(&self) -> (r: Company)
        ensures
            r@ == self@,
    {
        Company {
            name: self.name.clone(),
            ticker: self.ticker.clone(),
            base_link: self.base_link.clone(),
            link: self.link.clone(),
            altman: self.altman.clone(),
            f_score_bits: self.f_score_bits,
            pe_bits: self.pe_bits,
            roe_bits: self.roe_bits,
            p_bv_bits: self.p_bv_bits,
            p_bvg_bits: self.p_bvg_bits,
            dividend_years: clone_strings(&self.dividend_years),
        }
    }
}

impl Company {
    /// Sets the link to the company's indicators page: the base link, the
    /// name, `-`, the ticker and `/wskazniki-finansowe`, rewritten by the
    /// mapping if one is given.
    pub fn update_indicators_link(&mut self, url_modifier: Option<UrlsModifier>)
        ensures
            final(self)@ == (CompanyView {
                link: match url_modifier {
                    Some(m) => modify_seq(
                        m.entries(),
                        indicators_link_seq(old(self).base_link@, old(self).name@, old(self).ticker@),
                    ),
                    None => indicators_link_seq(
                        old(self).base_link@,
                        old(self).name@,
                        old(self).ticker@,
                    ),
                },
                ..old(self)@
            }),
    {
        let mut url = self.base_link.clone();
        url.append(self.name.as_str());
        url.append("-");
        url.append(self.ticker.as_str());
        url.append("/wskazniki-finansowe");
        self.link = match url_modifier {
            Some(modifier) => modifier.modify(url),
            None => url,
        };
    }
}

impl Default for Company {
    fn default() -> (r: Self)
        ensures
            r@ == default_company(),
    {
        let r = Self {
            name: String::new(),
            ticker: String::new(),
            base_link: "https://strefainwestorow.pl/notowania/gpw/".to_string(),
            link: String::new(),
            altman: String::new(),
            f_score_bits: F32_ZERO_BITS,
            pe_bits: F32_ZERO_BITS,
            roe_bits: F32_ZERO_BITS,
            p_bv_bits: F32_ZERO_BITS,
            p_bvg_bits: F32_ZERO_BITS,
            dividend_years: Vec::new(),
        };
        assert(r.dividend_years@.map_values(|s: String| s@) =~= Seq::<Seq<char>>::empty());
        r
    }
}

/// The address and port of a service.
#[derive(Debug)]
pub struct ServerConfig {
    pub address: String,
    pub port: String,
}

impl ServerConfig {
    /// `address:port`.
    pub fn get_url(&self) -> (r: String)
        ensures
            r@ == self.address@ + ":"@ + self.port@,
    {
        let mut r = self.address.clone();
        r.append(":");
        r.append(self.port.as_str());
        r
    }
}

impl Clone for ServerConfig {
    fn clone(&self) -> (r: Self)
        ensures
            r.address@ == self.address@,
            r.port@ == self.port@,
    {
        ServerConfig { address: self.address.clone(), port: self.port.clone() }
    }
}

impl Default for ServerConfig {
    fn default() -> (r: Self)
        ensures
            r.address@ == "0.0.0.0"@,
            r.port@ == "00"@,
    {
        ServerConfig { address: "0.0.0.0".to_string(), port: "00".to_string() }
    }
}

} // verus!
