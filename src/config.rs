//! The run's configuration: the query, the files to search and the case mode.
use vstd::prelude::*;

verus! {

/// The message for a command line without a query.
pub const NO_QUERY: &'static str = "Didn't get a query string";

/// The message for a command line with a query but no file name.
pub const NO_FILE_NAME: &'static str = "Didn't get a file name";

/// What a run searches for, where, and whether case is ignored.
pub struct Config {
    pub query: String,
    pub filenames: Vec<String>,
    pub ignore_case: bool,
}

/// The case setting: ignore case exactly when the setting is the text "1".
pub open spec fn ignores_case(setting: Option<Seq<char>>) -> bool {
    setting == Some(seq!['1'])
}

/// Whether `s` is the text "1".
fn is_one(s: &str) -> (r: bool)
    ensures
        r == (s@ == seq!['1']),
{
    if s.unicode_len() == 1 {
        let c = s.get_char(0);
        assert(c == '1' ==> s@ =~= seq!['1']);
        c == '1'
    } else {
        false
    }
}

impl Config {
    /// A configuration names at least one file to search.
    pub open spec fn wf(&self) -> bool {
        self.filenames@.len() >= 1
    }

    /// A configuration from the command line `args` (the program's name
    /// first, then the query, then one or more file names) and from the
    /// value of the case setting, if it is set.
    pub fn new(args: Vec<String>, ignore_case_setting: Option<String>) -> (r: Result<
        Config,
        &'static str,
    >)
        ensures
            args@.len() < 2 <==> r == Err::<Config, &'static str>(NO_QUERY),
            args@.len() == 2 <==> r == Err::<Config, &'static str>(NO_FILE_NAME),
            r is Ok <==> args@.len() >= 3,
            r matches Ok(c) ==> {
                &&& c.wf()
                &&& c.query == args@[1]
                &&& c.filenames@ == args@.subrange(2, args@.len() as int)
                &&& c.ignore_case == ignores_case(
                    match ignore_case_setting {
                        Some(v) => Some(v@),
                        None => None,
                    },
                )
            },
    {
        let mut args = args;
        if args.len() < 2 {
            return Err(NO_QUERY);
        }
        if args.len() < 3 {
            return Err(NO_FILE_NAME);
        }
        let filenames = args.split_off(2);
        let query = match args.pop() {
            Some(q) => q,
            None => {
                return Err(NO_QUERY);
            },
        };
        let ignore_case = match &ignore_case_setting {
            Some(v) => is_one(v.as_str()),
            None => false,
        };
        Ok(Config { query, filenames, ignore_case })
    }
}

} // verus!
