//! Configuration resolution from invocation tokens.
//!
//! [`Config::build`] assembles a [`Config`] from the raw token sequence of an
//! invocation: the first token (conventionally the program name) is
//! discarded, an optional leading `--ignore-case` flag selects
//! case-insensitive comparison, and the next two tokens are the query and the
//! file path.

use vstd::prelude::*;

verus! {

/// The three parameters of one search invocation.
pub struct Config {
    pub ignore_case: bool,
    pub query: String,
    pub file_path: String,
}

/// Why a token sequence does not resolve to a [`Config`].
#[derive(Debug, Clone, Copy, PartialEq, Eq, Structural)]
pub enum ConfigError {
    /// No query token was supplied.
    MissingQuery,
    /// No file path token was supplied.
    MissingFilePath,
}

/// The tokens after the program name.
pub open spec fn trailing_tokens(args: Seq<Seq<char>>) -> Seq<Seq<char>> {
    if args.len() == 0 {
        Seq::empty()
    } else {
        args.skip(1)
    }
}

/// The case-insensitivity flag stands first among the trailing tokens.
pub open spec fn flag_present(toks: Seq<Seq<char>>) -> bool {
    toks.len() > 0 && toks[0] == "--ignore-case"@
}

/// The trailing tokens with the flag, if present, consumed.
pub open spec fn tokens_after_flag(toks: Seq<Seq<char>>) -> Seq<Seq<char>> {
    if flag_present(toks) {
        toks.skip(1)
    } else {
        toks
    }
}

impl Config {
    /// Resolves the raw invocation tokens into a configuration.
    ///
    /// The first token is discarded as the program name. A `--ignore-case`
    /// token standing immediately after it enables case-insensitive search
    /// and is consumed. Of the remaining tokens the first is the query and
    /// the second the file path; further tokens are ignored.
    pub fn build(args: Vec<String>) -> (r: Result<Config, ConfigError>)
        ensures
            ({
                let rest = tokens_after_flag(trailing_tokens(args.deep_view()));
                match r {
                    Ok(c) => {
                        &&& rest.len() >= 2
                        &&& c.ignore_case == flag_present(trailing_tokens(args.deep_view()))
                        &&& c.query@ == rest[0]
                        &&& c.file_path@ == rest[1]
                    },
                    Err(ConfigError::MissingQuery) => rest.len() == 0,
                    Err(ConfigError::MissingFilePath) => rest.len() == 1,
                }
            }),
    {
        let ghost toks = trailing_tokens(args.deep_view());
        let n = args.len();
        let mut idx: usize = 1;
        proof {
            assert(toks.len() == if n == 0 {
                0int
            } else {
                n - 1
            });
            assert(forall|j: int| 0 <= j < toks.len() ==> toks[j] == args@[j + 1].deep_view());
        }
        let flag = String::from_str("--ignore-case");
        let ignore_case = n > 1 && args[1] == flag;
        proof {
            assert(ignore_case == flag_present(toks));
            if ignore_case {
                assert(toks.skip(1) =~~= args.deep_view().skip(2));
            }
        }
        if ignore_case {
            idx = 2;
        }
        let ghost rest = tokens_after_flag(toks);
        proof {
            assert(rest.len() == if n <= idx {
                0int
            } else {
                n - idx
            });
            assert(forall|j: int| 0 <= j < rest.len() ==> rest[j] == args@[j + idx].deep_view());
        }
        if idx >= n {
            return Err(ConfigError::MissingQuery);
        }
        let query = args[idx].clone();
        if idx + 1 >= n {
            return Err(ConfigError::MissingFilePath);
        }
        let file_path = args[idx + 1].clone();
        Ok(Config { ignore_case, query, file_path })
    }
}

} // verus!
