use vstd::prelude::*;
use vstd::string::*;
use crate::config::Config;
use crate::formatter::{bodies_of, document};
use crate::ranking::{rank, ranked, LookupRecord};
use crate::text::{blank, decimal, decimal_of, is_blank};

verus! {

/// The parsed command line: the query, the operation flags and the themes on offer.
pub struct Cli {
    pub list_themes: bool,
    pub no_color: bool,
    pub no_paging: bool,
    pub query: String,
    pub search: bool,
    pub theme: Option<String>,
    pub themes: Vec<String>,
}

/// One command name that a search found.
#[derive(Debug, PartialEq, Eq)]
pub struct SearchRecord {
    pub command: String,
}

/// Why a request for records failed.
#[derive(Debug, PartialEq, Eq)]
pub enum FetchError {
    /// The request did not complete; the detail says why.
    Transport(String),
    /// The service answered with this status code.
    Status(u16),
    /// The answer was not a list of records of the expected shape.
    Decode(String),
}

/// What the command line asks for.
#[derive(PartialEq, Eq, Structural, Clone, Copy, Debug)]
pub enum Mode {
    Lookup,
    Search,
    ListThemes,
}

/// The next thing to do. The caller performs it and reports back where a step needs an
/// outcome.
#[derive(Debug, PartialEq, Eq)]
pub enum Action {
    /// Show a sample of each theme on offer.
    ListThemes,
    /// Tell the user the query was refused; the run fails.
    Reject { message: String },
    /// Request the records of `mode` at `path` and hand the outcome to `lookup` or
    /// `search`.
    Fetch { mode: Mode, path: String },
    /// Show the document with highlighting and paging, and hand back whether anything
    /// was shown.
    Render { document: String },
    /// Print the document as plain text; the run succeeds.
    PrintPlain { document: String },
    /// Report the message on the error stream; the run fails.
    Fail { message: String },
    /// The run succeeded.
    Done,
}

/// Whether a run that ends with `a` fails.
pub open spec fn fails(a: Action) -> bool {
    a is Reject || a is Fail
}

impl Action {
    /// The exit status of a run that ends with this action: non-zero when it fails.
    pub fn exit_code(&self) -> (r: i32)
        ensures
            (r != 0) == fails(*self),
    {
        match self {
            Action::Reject { .. } | Action::Fail { .. } => 1,
            _ => 0,
        }
    }
}

/// The text that refuses an empty query.
pub open spec fn empty_query_message() -> Seq<char> {
    "Query cannot be empty, please input something.\nEg: bro tar"@
}

/// The path of the request for `query`: `/{query}.json` for a lookup,
/// `/search/{query}.json` for a search.
pub open spec fn request_path(mode: Mode, query: Seq<char>) -> Seq<char> {
    if mode == Mode::Search {
        "/search/"@ + query + ".json"@
    } else {
        "/"@ + query + ".json"@
    }
}

/// What a failed request is reported as, naming its cause.
pub open spec fn error_detail(e: FetchError) -> Seq<char> {
    match e {
        FetchError::Transport(d) => "transport error: "@ + d@,
        FetchError::Status(code) => "status code "@ + decimal_of(code as nat),
        FetchError::Decode(d) => "malformed response: "@ + d@,
    }
}

/// The diagnostic for a failed request.
pub open spec fn failure_message(e: FetchError) -> Seq<char> {
    "Unable to find because of:\n  - "@ + error_detail(e)
}

/// The texts of the records' messages, in their order.
pub open spec fn messages_of(s: Seq<LookupRecord>) -> Seq<Seq<char>> {
    s.map_values(|r: LookupRecord| r.message@)
}

/// The command names of search records, in their order.
pub open spec fn commands_of(s: Seq<SearchRecord>) -> Seq<Seq<char>> {
    s.map_values(|r: SearchRecord| r.command@)
}

/// The document for a lookup: the messages in ranked order.
pub open spec fn lookup_document(records: Seq<LookupRecord>) -> Seq<char> {
    document(messages_of(ranked(records)))
}

/// The document for a search: a header that counts the matches, then the names.
pub open spec fn search_document(query: Seq<char>, records: Seq<SearchRecord>) -> Seq<char> {
    "# Total "@ + decimal_of(records.len()) + " matches for the term '"@ + query + "':\n"@
        + document(commands_of(records))
}

impl FetchError {
    /// The cause, as the user is told it.
    pub fn detail(&self) -> (r: String)
        ensures
            r@ == error_detail(*self),
    {
        match self {
            FetchError::Transport(d) => {
                let mut r = String::from_str("transport error: ");
                r.append(d.as_str());
                r
            },
            FetchError::Status(code) => {
                let mut r = String::from_str("status code ");
                let digits = decimal(*code as u64);
                r.append(digits.as_str());
                r
            },
            FetchError::Decode(d) => {
                let mut r = String::from_str("malformed response: ");
                r.append(d.as_str());
                r
            },
        }
    }
}

fn failure(e: &FetchError) -> (r: Action)
    ensures
        r matches Action::Fail { message } && message@ == failure_message(*e),
{
    let mut message = String::from_str("Unable to find because of:\n  - ");
    let detail = e.detail();
    message.append(detail.as_str());
    Action::Fail { message }
}

impl Cli {
    /// The operation asked for; listing themes takes precedence over the query.
    pub fn mode(&self) -> (r: Mode)
        ensures
            r == (if self.list_themes {
                Mode::ListThemes
            } else if self.search {
                Mode::Search
            } else {
                Mode::Lookup
            }),
    {
        if self.list_themes {
            Mode::ListThemes
        } else if self.search {
            Mode::Search
        } else {
            Mode::Lookup
        }
    }

    /// The display settings for this command line, given whether the environment asks
    /// for no colour.
    pub fn config(&self, no_color_env: bool) -> (r: Config)
        ensures
            r@ == crate::config::resolved(self.no_color, self.no_paging, self.theme, no_color_env),
    {
        Config::resolve(self.no_color, self.no_paging, &self.theme, no_color_env)
    }

    /// The path of the request for the query in `mode`.
    pub fn request_path(&self, mode: Mode) -> (r: String)
        ensures
            r@ == request_path(mode, self.query@),
    {
        let mut r = if mode == Mode::Search {
            String::from_str("/search/")
        } else {
            String::from_str("/")
        };
        r.append(self.query.as_str());
        r.append(".json");
        r
    }

    /// The first step of a run: list the themes, refuse a blank query before any
    /// request, or fetch the records for the query.
    pub fn run(&self) -> (r: Action)
        ensures
            self.list_themes ==> r is ListThemes,
            !self.list_themes && blank(self.query@) ==> (r matches Action::Reject { message }
                && message@ == empty_query_message()),
            !self.list_themes && !blank(self.query@) ==> (r matches Action::Fetch { mode, path }
                && mode == (if self.search {
                Mode::Search
            } else {
                Mode::Lookup
            }) && path@ == request_path(mode, self.query@)),
    {
        let mode = self.mode();
        if mode == Mode::ListThemes {
            return Action::ListThemes;
        }
        if is_blank(self.query.as_str()) {
            return Action::Reject {
                message: String::from_str(
                    "Query cannot be empty, please input something.\nEg: bro tar",
                ),
            };
        }
        let path = self.request_path(mode);
        Action::Fetch { mode, path }
    }

    /// The step after a lookup request: on success, render the messages of the records
    /// in ranked order as one document; on failure, report it and render nothing.
    pub fn lookup(&self, fetched: Result<Vec<LookupRecord>, FetchError>) -> (r: Action)
        ensures
            fetched matches Ok(records) ==> (r matches Action::Render { document }
                && document@ == lookup_document(records@)),
            fetched matches Err(e) ==> (r matches Action::Fail { message } && message@
                == failure_message(e)),
            fetched is Err ==> fails(r) && !(r is Render),
    {
        match fetched {
            Ok(records) => {
                let ordered = rank(&records);
                let mut list: Vec<String> = Vec::new();
                let mut k: usize = 0;
                while k < ordered.len()
                    invariant
                        k <= ordered@.len(),
                        list@.len() == k,
                        forall|i: int| 0 <= i < k ==> list@[i]@ == ordered@[i].message@,
                    decreases ordered.len() - k,
                {
                    list.push(ordered[k].message.clone());
                    k += 1;
                }
                assert(bodies_of(list@) =~= messages_of(ordered@));
                Action::Render { document: Cli::format_to_string(&list) }
            },
            Err(e) => failure(&e),
        }
    }

    /// The step after a search request: on success, render a header that counts the
    /// matches followed by their names; on failure, report it and render nothing.
    pub fn search(&self, fetched: Result<Vec<SearchRecord>, FetchError>) -> (r: Action)
        ensures
            fetched matches Ok(records) ==> (r matches Action::Render { document }
                && document@ == search_document(self.query@, records@)),
            fetched matches Err(e) ==> (r matches Action::Fail { message } && message@
                == failure_message(e)),
            fetched is Err ==> fails(r) && !(r is Render),
    {
        match fetched {
            Ok(records) => {
                let mut list: Vec<String> = Vec::new();
                let mut k: usize = 0;
                while k < records.len()
                    invariant
                        k <= records@.len(),
                        list@.len() == k,
                        forall|i: int| 0 <= i < k ==> list@[i]@ == records@[i].command@,
                    decreases records.len() - k,
                {
                    list.push(records[k].command.clone());
                    k += 1;
                }
                assert(bodies_of(list@) =~= commands_of(records@));
                let mut document = String::from_str("# Total ");
                let total = decimal(records.len() as u64);
                document.append(total.as_str());
                document.append(" matches for the term '");
                document.append(self.query.as_str());
                document.append("':\n");
                let body = Cli::format_to_string(&list);
                document.append(body.as_str());
                Action::Render { document }
            },
            Err(e) => failure(&e),
        }
    }

    /// The step after rendering: done when something was shown, else print the document
    /// as plain text, which still counts as success.
    pub fn after_render(document: String, displayed: bool) -> (r: Action)
        ensures
            displayed ==> r is Done,
            !displayed ==> (r matches Action::PrintPlain { document: d } && d == document),
    {
        if displayed {
            Action::Done
        } else {
            Action::PrintPlain { document }
        }
    }
}

} // verus!
