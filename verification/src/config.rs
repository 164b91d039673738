//! What a run is started with: the strategy selector and the positional
//! arguments.

use crate::error::Error;
use crate::text::{chars_view, same};
use vstd::prelude::*;
use vstd::std_specs::convert::FromSpecImpl;

verus! {

/// The way descriptors are extracted, fixed once for a run.
#[derive(Debug, Clone, Copy, PartialEq, Eq, Structural)]
pub enum Strategy {
    /// The textual extractor.
    Manual,
    /// The structural extractor.
    Swc,
}

/// The selector asks for the structural extractor.
pub open spec fn selects_swc(selector: Seq<char>) -> bool {
    selector == "swc"@ || selector == "SWC"@ || selector == "Swc"@
}

/// The strategy that `selector` stands for: the structural one for `swc`,
/// `SWC` and `Swc`, the textual one for anything else.
pub open spec fn strategy_of(selector: Seq<char>) -> Strategy {
    if selects_swc(selector) {
        Strategy::Swc
    } else {
        Strategy::Manual
    }
}

impl Strategy {
    /// The strategy that `selector` stands for.
    pub fn select(selector: &str) -> (r: Strategy)
        ensures
            r == strategy_of(selector@),
    {
        if same(selector, "swc") || same(selector, "SWC") || same(selector, "Swc") {
            Strategy::Swc
        } else {
            Strategy::Manual
        }
    }
}

impl From<String> for Strategy {
    fn from(s: String) -> (r: Strategy) {
        Strategy::select(s.as_str())
    }
}

impl FromSpecImpl<String> for Strategy {
    open spec fn obeys_from_spec() -> bool {
        true
    }

    open spec fn from_spec(s: String) -> Strategy {
        strategy_of(s@)
    }
}

/// The name of the environment variable that the signing key is looked for
/// in before the arguments are.
pub const SIGNING_KEY: &'static str = "SIGNING_KEY";

/// Where the signature map is written when no argument says otherwise.
pub const OUTPUT_FILE: &'static str = "signatures.json";

/// What a run works with.
#[derive(Debug, Clone, PartialEq, Eq)]
pub struct Config {
    pub dir: String,
    pub signing_key: String,
    pub output_file: String,
    pub strategy: Strategy,
}

/// The mathematical value of a `Config`.
pub struct ConfigView {
    pub dir: Seq<char>,
    pub signing_key: Seq<char>,
    pub output_file: Seq<char>,
    pub strategy: Strategy,
}

impl View for Config {
    type V = ConfigView;

    open spec fn view(&self) -> ConfigView {
        ConfigView {
            dir: self.dir@,
            signing_key: self.signing_key@,
            output_file: self.output_file@,
            strategy: self.strategy,
        }
    }
}

/// The argument at position `at`, if there is one.
pub open spec fn argument(args: Seq<String>, at: int) -> Option<Seq<char>> {
    if 0 <= at < args.len() {
        Some(args[at]@)
    } else {
        None
    }
}

/// The configuration that the arguments `args`, the program's name first,
/// and the signing key of the environment make up. The directory is the
/// first argument and must be there. The signing key is that of the
/// environment, else the second argument, and one of them must be there.
/// The output file is the third argument, else `signatures.json`. The
/// strategy is what the fourth argument selects, else the structural one.
pub open spec fn configured(args: Seq<String>, env_key: Option<Seq<char>>) -> Result<
    ConfigView,
    Error,
> {
    match argument(args, 1) {
        None => Err(Error::MissingDirectory),
        Some(dir) => {
            let key = match env_key {
                Some(key) => Some(key),
                None => argument(args, 2),
            };
            match key {
                None => Err(Error::MissingSigningKey),
                Some(signing_key) => Ok(
                    ConfigView {
                        dir,
                        signing_key,
                        output_file: match argument(args, 3) {
                            Some(file) => file,
                            None => OUTPUT_FILE@,
                        },
                        strategy: match argument(args, 4) {
                            Some(selector) => strategy_of(selector),
                            None => Strategy::Swc,
                        },
                    },
                ),
            }
        },
    }
}

impl Config {
    /// Reads the configuration of a run from its arguments, the program's
    /// name first, and from the signing key that the environment holds, if
    /// it holds one.
    pub fn from_args(args: &Vec<String>, env_key: Option<String>) -> (r: Result<Config, Error>)
        ensures
            match r {
                Ok(config) => configured(args@, chars_view(env_key)) == Ok::<
                    ConfigView,
                    Error,
                >(config@),
                Err(e) => configured(args@, chars_view(env_key)) == Err::<
                    ConfigView,
                    Error,
                >(e),
            },
    {
        if args.len() < 2 {
            return Err(Error::MissingDirectory);
        }
        let dir = args[1].clone();
        let signing_key = match env_key {
            Some(key) => key,
            None => {
                if args.len() < 3 {
                    return Err(Error::MissingSigningKey);
                }
                args[2].clone()
            },
        };
        let output_file = if args.len() > 3 {
            args[3].clone()
        } else {
            OUTPUT_FILE.to_owned()
        };
        let strategy = if args.len() > 4 {
            Strategy::select(args[4].as_str())
        } else {
            Strategy::Swc
        };
        Ok(Config { dir, signing_key, output_file, strategy })
    }
}

} // verus!
