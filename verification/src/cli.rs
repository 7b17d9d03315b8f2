//! The commands of the command line.
use vstd::prelude::*;
use crate::lexicon::{lowercase, to_lowercase};
use crate::mcp::{first_number, query_words, search_arguments, text_is};
use crate::text::{join, strings_of};

verus! {

/// What the command line asks for.
pub enum Command {
    /// No command: show how to use the program, with its settings.
    Usage,
    /// Serve MCP over standard input and output.
    Mcp,
    /// Ingest the file at this path.
    Ingest(String),
    /// Search for this query, for this many results.
    Search(String, usize),
    /// List the documents.
    List,
    /// Clear the documents.
    Clear,
    /// Show the store's summary.
    Status,
    /// Show how to use the program.
    Help,
    /// A command that is not known (or `ingest` without a file).
    Unknown,
}

/// Whether `c` is what the command line `args` (the program's name first) asks for;
/// the command word is read without regard to case.
pub open spec fn is_command_for(c: Command, args: Seq<Seq<char>>) -> bool {
    if args.len() < 2 {
        c is Usage
    } else {
        let w = lowercase(args[1]);
        if w == "mcp"@ {
            c is Mcp
        } else if w == "ingest"@ && args.len() >= 3 {
            c matches Command::Ingest(p) && p@ == args[2]
        } else if w == "search"@ {
            c matches Command::Search(q, k) && q@ == join(query_words(args.skip(2)), seq![' '])
                && k == first_number(args.skip(2))
        } else if w == "list"@ {
            c is List
        } else if w == "clear"@ {
            c is Clear
        } else if w == "status"@ {
            c is Status
        } else if w == "help"@ {
            c is Help
        } else {
            c is Unknown
        }
    }
}

/// What the command line `args` (the program's name first) asks for.
pub fn command_of(args: &Vec<String>) -> (c: Command)
    ensures
        is_command_for(c, strings_of(args@)),
{
    let ghost av = strings_of(args@);
    if args.len() < 2 {
        return Command::Usage;
    }
    let w = to_lowercase(args[1].as_str());
    proof {
        assert(av[1] == args@[1]@);
    }
    if text_is(&w, "mcp") {
        Command::Mcp
    } else if text_is(&w, "ingest") && args.len() >= 3 {
        Command::Ingest(args[2].clone())
    } else if text_is(&w, "search") {
        let mut rest: Vec<String> = Vec::new();
        let mut i: usize = 2;
        while i < args.len()
            invariant
                2 <= i <= args.len(),
                av == strings_of(args@),
                strings_of(rest@) == av.subrange(2, i as int),
            decreases args.len() - i,
        {
            let ghost prev = strings_of(rest@);
            let a = args[i].clone();
            let ghost a_view = a@;
            rest.push(a);
            i = i + 1;
            proof {
                assert(strings_of(rest@) =~= prev.push(a_view));
                assert(av.subrange(2, i as int) =~= av.subrange(2, i - 1).push(av[i - 1]));
            }
        }
        proof {
            assert(av.subrange(2, args.len() as int) =~= av.skip(2));
        }
        let (q, k) = search_arguments(&rest);
        Command::Search(q, k)
    } else if text_is(&w, "list") {
        Command::List
    } else if text_is(&w, "clear") {
        Command::Clear
    } else if text_is(&w, "status") {
        Command::Status
    } else if text_is(&w, "help") {
        Command::Help
    } else {
        Command::Unknown
    }
}

/// Whether the setting `v` turns physics scoring on: `v` lower-cased is `1`, or `v`
/// is `true` or `yes`.
pub fn physics_mode(v: &String) -> (on: bool)
    ensures
        on == (lowercase(v@) == "1"@ || v@ == "true"@ || v@ == "yes"@),
{
    let low = to_lowercase(v.as_str());
    text_is(&low, "1") || text_is(v, "true") || text_is(v, "yes")
}

} // verus!
