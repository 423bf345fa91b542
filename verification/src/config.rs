//! The settings of a run and their defaults.

use crate::text::{decimal, lemma_parse_of_decimal, parse_u32, parsed_u32};
use vstd::prelude::*;

verus! {

/// Where the jobs are found, if nothing else is said.
pub const BASE_URL: &'static str = "https://gitlab.parity.io/api/v4/projects/674/jobs";

/// Where the jobs are stored, if nothing else is said.
pub const JOBS_FILE: &'static str = "zombie_jobs.csv";

/// How many pages are read at most, if nothing else is said. The first is read in any case.
pub const MAX_PAGES: u32 = 1000;

/// The variables of the environment, each with its text where it is set to some text.
#[derive(Debug, PartialEq, Eq)]
pub struct Variables {
    /// ZOMBIE_JOBS_FILE
    pub jobs_file: Option<String>,
    /// ZOMBIE_JOBS_BASE_URL
    pub base_url: Option<String>,
    /// ZOMBIE_JOBS_MAX_PAGES
    pub max_pages: Option<String>,
    /// ZOMBIE_JOBS_TOKEN
    pub token: Option<String>,
    /// ZOMBIE_JOBS_BASE_DATE, from where jobs are looked for, as "%Y-%m-%dTHH:MM:ssZ"
    pub base_date: Option<String>,
    /// ZOMBIE_JOBS_END_DATE, until where jobs are looked for, as "%Y-%m-%dTHH:MM:ssZ"
    pub end_date: Option<String>,
}

/// The settings of a run.
#[derive(Debug, PartialEq, Eq)]
pub struct Config {
    pub jobs_file: String,
    pub base_url: String,
    pub max_pages: u32,
    pub token: Option<String>,
    pub base_date: Option<String>,
    pub end_date: Option<String>,
}

/// What the settings say.
pub struct ConfigView {
    pub jobs_file: Seq<char>,
    pub base_url: Seq<char>,
    pub max_pages: u32,
    pub token: Option<Seq<char>>,
    pub base_date: Option<Seq<char>>,
    pub end_date: Option<Seq<char>>,
}

impl View for Config {
    type V = ConfigView;

    open spec fn view(&self) -> ConfigView {
        ConfigView {
            jobs_file: self.jobs_file@,
            base_url: self.base_url@,
            max_pages: self.max_pages,
            token: self.token.deep_view(),
            base_date: self.base_date.deep_view(),
            end_date: self.end_date.deep_view(),
        }
    }
}

/// The text of a variable, or a default.
pub open spec fn text_or(text: Option<Seq<char>>, default: Seq<char>) -> Seq<char> {
    match text {
        Some(text) => text,
        None => default,
    }
}

/// The number of pages that a variable spells. One that is not set or spells no number stands
/// for the default.
pub open spec fn pages_or_default(text: Option<Seq<char>>) -> u32 {
    match text {
        Some(text) => match parsed_u32(text) {
            Some(pages) => pages,
            None => MAX_PAGES,
        },
        None => MAX_PAGES,
    }
}

impl Config {
    /// The settings that the environment asks for.
    pub fn from_variables(variables: Variables) -> (config: Config)
        ensures
            config@ == (ConfigView {
                jobs_file: text_or(variables.jobs_file.deep_view(), JOBS_FILE@),
                base_url: text_or(variables.base_url.deep_view(), BASE_URL@),
                max_pages: pages_or_default(variables.max_pages.deep_view()),
                token: variables.token.deep_view(),
                base_date: variables.base_date.deep_view(),
                end_date: variables.end_date.deep_view(),
            }),
    {
        let jobs_file = match variables.jobs_file {
            Some(file) => file,
            None => JOBS_FILE.to_owned(),
        };
        let base_url = match variables.base_url {
            Some(url) => url,
            None => BASE_URL.to_owned(),
        };
        let max_pages: u32 = match &variables.max_pages {
            Some(text) => match parse_u32(text.as_str()) {
                Some(pages) => pages,
                None => MAX_PAGES,
            },
            None => MAX_PAGES,
        };
        Config {
            jobs_file,
            base_url,
            max_pages,
            token: variables.token,
            base_date: variables.base_date,
            end_date: variables.end_date,
        }
    }
}

/// A number of pages that is spelled in decimal notation is the one that is used.
pub proof fn lemma_spelled_pages_are_used(pages: u32)
    ensures
        pages_or_default(Some(decimal(pages as nat))) == pages,
{
    lemma_parse_of_decimal(pages);
}

} // verus!
