//! The command line of the back end.

use vstd::prelude::*;

verus! {

/// The rating page of the companies listed on the Warsaw exchange.
pub const COMPANIES_LIST_URL: &'static str = "https://www.biznesradar.pl/spolki-rating/akcje_gpw";

/// The base of the indicators pages of companies.
pub const COMPANY_INDICATORS_URL: &'static str = "https://strefainwestorow.pl/notowania/gpw/";

/// The command line of the back end.
#[derive(Debug)]
pub struct Cli {
    /// Own address
    pub oa: Option<String>,
    /// Own port
    pub op: Option<String>,
    /// Companies list url
    pub companies_list_url: String,
    /// Company indicators url
    pub company_indicators_url: String,
}

} // verus!
