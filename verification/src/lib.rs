//! Generates a short, human-readable pull-request title from a branch name
//! and a bounded list of commit records.
//!
//! The pipeline is a single deterministic pass: branch-name parsing, text
//! normalization, commit-message cleaning, context assembly, rule-based
//! title synthesis, and length-bounded post-processing.

use vstd::prelude::*;

pub mod cli;
pub mod error;
pub mod text;
pub mod git;
pub mod context;
pub mod ml;

verus! {

/// Configuration for the title generator.
///
/// `temperature_tenths` is the deterministic template-selection knob in
/// tenths: a value of 7 stands for 0.7. Valid values lie in 1..=10.
#[derive(Clone)]
pub struct GeneratorConfig {
    pub model_name: String,
    pub temperature_tenths: u8,
    pub max_length: usize,
    pub max_commits: usize,
    pub verbose: bool,
}

impl GeneratorConfig {
    pub fn with_model(self, model: &str) -> (r: Self)
        ensures
            r.model_name@ == model@,
            r.temperature_tenths == self.temperature_tenths,
            r.max_length == self.max_length,
            r.max_commits == self.max_commits,
            r.verbose == self.verbose,
    {
        let mut c = self;
        c.model_name = model.to_owned();
        c
    }

    pub fn with_temperature(self, temperature_tenths: u8) -> (r: Self)
        ensures
            r.temperature_tenths == temperature_tenths,
            r.model_name@ == self.model_name@,
            r.max_length == self.max_length,
            r.max_commits == self.max_commits,
            r.verbose == self.verbose,
    {
        let mut c = self;
        c.temperature_tenths = temperature_tenths;
        c
    }

    pub fn with_max_length(self, max_length: usize) -> (r: Self)
        ensures
            r.max_length == max_length,
            r.model_name@ == self.model_name@,
            r.temperature_tenths == self.temperature_tenths,
            r.max_commits == self.max_commits,
            r.verbose == self.verbose,
    {
        let mut c = self;
        c.max_length = max_length;
        c
    }

    pub fn with_max_commits(self, max_commits: usize) -> (r: Self)
        ensures
            r.max_commits == max_commits,
            r.model_name@ == self.model_name@,
            r.temperature_tenths == self.temperature_tenths,
            r.max_length == self.max_length,
            r.verbose == self.verbose,
    {
        let mut c = self;
        c.max_commits = max_commits;
        c
    }

    pub fn with_verbose(self, verbose: bool) -> (r: Self)
        ensures
            r.verbose == verbose,
            r.model_name@ == self.model_name@,
            r.temperature_tenths == self.temperature_tenths,
            r.max_length == self.max_length,
            r.max_commits == self.max_commits,
    {
        let mut c = self;
        c.verbose = verbose;
        c
    }
}

impl Default for GeneratorConfig {
    fn default() -> (r: Self)
        ensures
            r.model_name@ == "tiny-llama"@,
            r.temperature_tenths == 7,
            r.max_length == 50,
            r.max_commits == 20,
            r.verbose == false,
    {
        GeneratorConfig {
            model_name: "tiny-llama".to_owned(),
            temperature_tenths: 7,
            max_length: 50,
            max_commits: 20,
            verbose: false,
        }
    }
}

} // verus!
