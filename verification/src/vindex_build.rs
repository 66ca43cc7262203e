//! What a benchmark of the IVF-PQ index build is asked to do.

use crate::text::{joined, same};
use std::collections::HashMap;
use vstd::prelude::*;
use vstd::string::*;

verus! {

/// The index that is built.
pub const INDEX_TYPE: &'static str = "ivf-pq";

/// The argument that asks to drop the index files that exist.
pub const DROP_EXISTING: &'static str = "--drop-existing";

/// A build of an index over one column of one table.
#[derive(Debug)]
pub struct BuildRequest {
    pub database: String,
    pub table: String,
    pub column: String,
    pub drop_existing: bool,
}

/// An argument that is required and was not given.
#[derive(Debug, Clone, Copy, PartialEq, Eq, Structural)]
pub enum MissingArgument {
    Database,
    Table,
    VectorColumn,
}

impl MissingArgument {
    /// The name of the argument.
    pub open spec fn name(self) -> Seq<char> {
        match self {
            MissingArgument::Database => "database"@,
            MissingArgument::Table => "table"@,
            MissingArgument::VectorColumn => "vector-column"@,
        }
    }

    /// The message for the user.
    pub fn message(&self) -> (message: String)
        ensures
            message@ == "missing <"@ + self.name() + "> argument"@,
    {
        let mut message = match self {
            MissingArgument::Database => joined("missing <", "database"),
            MissingArgument::Table => joined("missing <", "table"),
            MissingArgument::VectorColumn => joined("missing <", "vector-column"),
        };
        message.append("> argument");
        message
    }
}

/// The argument at `index`, which is required.
fn required_arg(
    args: &Vec<String>,
    index: usize,
    missing: MissingArgument,
) -> (arg: Result<String, MissingArgument>)
    ensures
        match arg {
            Ok(arg) => index < args@.len() && arg@ == args@[index as int]@,
            Err(error) => index >= args@.len() && error == missing,
        },
{
    if index < args.len() {
        Ok(args[index].clone())
    } else {
        Err(missing)
    }
}

impl BuildRequest {
    /// Reads the arguments of the command: a database, a table and a column,
    /// then anywhere the wish to drop what exists.
    pub fn parse(args: &Vec<String>) -> (request: Result<BuildRequest, MissingArgument>)
        ensures
            match request {
                Ok(request) => {
                    &&& args@.len() >= 3
                    &&& request.database@ == args@[0]@
                    &&& request.table@ == args@[1]@
                    &&& request.column@ == args@[2]@
                    &&& request.drop_existing == exists|i: int|
                        3 <= i < args@.len() && (#[trigger] args@[i])@ == DROP_EXISTING@
                },
                Err(MissingArgument::Database) => args@.len() == 0,
                Err(MissingArgument::Table) => args@.len() == 1,
                Err(MissingArgument::VectorColumn) => args@.len() == 2,
            },
    {
        let database = match required_arg(args, 0, MissingArgument::Database) {
            Ok(arg) => arg,
            Err(error) => {
                return Err(error);
            },
        };
        let table = match required_arg(args, 1, MissingArgument::Table) {
            Ok(arg) => arg,
            Err(error) => {
                return Err(error);
            },
        };
        let column = match required_arg(args, 2, MissingArgument::VectorColumn) {
            Ok(arg) => arg,
            Err(error) => {
                return Err(error);
            },
        };
        let mut drop_existing = false;
        let mut i: usize = 3;
        while i < args.len() && !drop_existing
            invariant
                3 <= i <= args@.len(),
                drop_existing == exists|j: int|
                    3 <= j < i && (#[trigger] args@[j])@ == DROP_EXISTING@,
            decreases args@.len() - i,
        {
            if same(args[i].as_str(), DROP_EXISTING) {
                assert(args@[i as int]@ == DROP_EXISTING@);
                drop_existing = true;
            }
            i = i + 1;
        }
        Ok(BuildRequest { database, table, column, drop_existing })
    }
}

/// The error of a JSON text that does not parse.
#[verifier::external_type_specification]
#[verifier::external_body]
pub struct ExJsonError(serde_json::Error);

/// The string map that `serde_json` reads from a JSON text; `None` where it
/// reports an error.
pub uninterp spec fn json_string_map(text: Seq<char>) -> Option<Map<Seq<char>, Seq<char>>>;

/// Calls `serde_json::from_str` for a map of strings. What is claimed is only
/// that the text decides between a map and an error, and decides the map.
/// What the error says is left open.
#[verifier::external_body]
fn parse_string_map(text: &str) -> (map: Result<HashMap<String, String>, serde_json::Error>)
    ensures
        match map {
            Ok(map) => json_string_map(text@) == Some(map.deep_view()),
            Err(_) => json_string_map(text@) is None,
        },
{
    serde_json::from_str(text)
}

/// Whether `error` is what a parse of `text` as a map of strings reports.
pub closed spec fn reported(text: &str, error: serde_json::Error) -> bool {
    call_ensures(parse_string_map, (text,), Err(error))
}

/// The options of a catalog are no JSON object of strings.
#[derive(Debug)]
pub struct InvalidOptions {
    pub source: serde_json::Error,
}

/// Reads the options of a catalog from a JSON object of strings. The error
/// holds what the parser reported of this text.
pub fn catalog_options(text: &str) -> (options: Result<HashMap<String, String>, InvalidOptions>)
    ensures
        match options {
            Ok(options) => json_string_map(text@) == Some(options.deep_view()),
            Err(invalid) => json_string_map(text@) is None && reported(text, invalid.source),
        },
{
    checked_options(parse_string_map(text))
}

/// The options that were parsed, or the library's error in place of the
/// parser's.
pub fn checked_options(parsed: Result<HashMap<String, String>, serde_json::Error>) -> (options:
    Result<HashMap<String, String>, InvalidOptions>)
    ensures
        match parsed {
            Ok(map) => options == Ok::<HashMap<String, String>, InvalidOptions>(map),
            Err(source) => options == Err::<HashMap<String, String>, InvalidOptions>(
                InvalidOptions { source },
            ),
        },
{
    match parsed {
        Ok(map) => Ok(map),
        Err(source) => Err(InvalidOptions { source }),
    }
}

/// The texts of a list of options.
pub open spec fn option_texts(options: Seq<(String, String)>) -> Seq<(Seq<char>, Seq<char>)> {
    Seq::new(options.len(), |i: int| (options[i].0@, options[i].1@))
}

/// The texts are those of the options, one for one.
pub proof fn law_option_texts_are_the_options(options: Seq<(String, String)>, i: int)
    ensures
        option_texts(options).len() == options.len(),
        0 <= i < options.len() ==> option_texts(options)[i].0 == options[i].0@ && option_texts(
            options,
        )[i].1 == options[i].1@,
{
}

/// Each missing argument has its own name, and so have the one that asks to
/// drop what exists and the index that is built.
pub proof fn law_names_of_the_arguments()
    ensures
        DROP_EXISTING@ == "--drop-existing"@,
        INDEX_TYPE@ == "ivf-pq"@,
        MissingArgument::Database.name() == "database"@,
        MissingArgument::Table.name() == "table"@,
        MissingArgument::VectorColumn.name() == "vector-column"@,
{
}

/// The options with which the index is built.
pub fn build_options() -> (options: Vec<(String, String)>)
    ensures
        option_texts(options@) == seq![
            ("dimension"@, "768"@),
            ("metric"@, "cosine"@),
            ("nlist"@, "4096"@),
            ("pq.m"@, "192"@),
        ],
{
    vec![
        ("dimension".to_owned(), "768".to_owned()),
        ("metric".to_owned(), "cosine".to_owned()),
        ("nlist".to_owned(), "4096".to_owned()),
        ("pq.m".to_owned(), "192".to_owned()),
    ]
}

} // verus!
