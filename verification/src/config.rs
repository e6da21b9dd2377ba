//! The settings that outlive the program.
use vstd::prelude::*;

use crate::text::copy_opt;

verus! {

use crate::text::opt_text;

/// The value of `strategy` that stands for the automatic choice.
pub const SMART: &'static str = "smart";

/// The settings.
#[derive(Debug)]
pub struct Config {
    /// The chosen strategy by name, or `SMART`.
    pub strategy: Option<String>,
    /// The last strategy that the auto-selection has found to work.
    pub auto_best: Option<String>,
    pub game_filter: bool,
    pub ipset: bool,
    /// The simple view.
    pub simple_mode: bool,
}

/// The settings as a mathematical value.
#[verifier::ext_equal]
pub struct ConfigView {
    pub strategy: Option<Seq<char>>,
    pub auto_best: Option<Seq<char>>,
    pub game_filter: bool,
    pub ipset: bool,
    pub simple_mode: bool,
}

impl View for Config {
    type V = ConfigView;

    open spec fn view(&self) -> ConfigView {
        ConfigView {
            strategy: opt_text(self.strategy),
            auto_best: opt_text(self.auto_best),
            game_filter: self.game_filter,
            ipset: self.ipset,
            simple_mode: self.simple_mode,
        }
    }
}

/// The settings of a first start: nothing chosen, no game filter, the simple view.
pub open spec fn first_start() -> ConfigView {
    ConfigView {
        strategy: None,
        auto_best: None,
        game_filter: false,
        ipset: true,
        simple_mode: true,
    }
}

impl Default for Config {
    fn default() -> (r: Self)
        ensures
            r@ == first_start(),
    {
        Config {
            strategy: None,
            auto_best: None,
            game_filter: false,
            ipset: true,
            simple_mode: true,
        }
    }
}

impl Clone for Config {
    fn clone(&self) -> (r: Self)
        ensures
            r@ == self@,
    {
        Config {
            strategy: copy_opt(&self.strategy),
            auto_best: copy_opt(&self.auto_best),
            game_filter: self.game_filter,
            ipset: self.ipset,
            simple_mode: self.simple_mode,
        }
    }
}

impl Config {
    /// The settings to begin with: those that were read, or those of a first start where
    /// there are none or they cannot be read.
    pub fn load(read: Option<Config>) -> (r: Config)
        ensures
            r@ == (match read {
                Some(c) => c@,
                None => first_start(),
            }),
    {
        match read {
            Some(c) => c,
            None => Config {
                strategy: None,
                auto_best: None,
                game_filter: false,
                ipset: true,
                simple_mode: true,
            },
        }
    }
}

} // verus!
