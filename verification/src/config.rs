//! The options of one run.

use vstd::prelude::*;

verus! {

/// A text-generation provider.
#[derive(Clone, Copy, Debug, PartialEq, Eq, Structural)]
pub enum Provider {
    OpenAi,
    Claude,
    /// Answers without any service.
    Mock,
}

impl Provider {
    /// The environment variable that holds the provider's credential.
    pub open spec fn key_variable(self) -> Option<Seq<char>> {
        match self {
            Provider::OpenAi => Some("OPENAI_API_KEY"@),
            Provider::Claude => Some("ANTHROPIC_API_KEY"@),
            Provider::Mock => None,
        }
    }

    /// The environment variable that holds the provider's credential;
    /// the mock provider needs none.
    pub fn api_key_variable(&self) -> (r: Option<&'static str>)
        ensures
            match r {
                Some(name) => self.key_variable() == Some(name@),
                None => self.key_variable() is None,
            },
    {
        match self {
            Provider::OpenAi => Some("OPENAI_API_KEY"),
            Provider::Claude => Some("ANTHROPIC_API_KEY"),
            Provider::Mock => None,
        }
    }
}

/// The options of one run.
pub struct Config {
    /// The text-generation provider.
    pub provider: Provider,
    /// Only report issues, change nothing.
    pub check_only: bool,
    /// Show more details.
    pub verbose: bool,
    /// Analyze without calling the provider.
    pub test_mode: bool,
}

impl Config {
    /// The environment variable in which the credential of the
    /// configured provider is looked up.
    pub fn api_key_variable(&self) -> (r: Option<&'static str>)
        ensures
            match r {
                Some(name) => self.provider.key_variable() == Some(name@),
                None => self.provider.key_variable() is None,
            },
    {
        self.provider.api_key_variable()
    }

    /// Whether the run stops after the issues have been reported.
    pub fn reports_only(&self) -> (r: bool)
        ensures
            r == (self.check_only || self.test_mode),
    {
        self.check_only || self.test_mode
    }
}

} // verus!
