//! Vocabulary of the `linc` command-line tool: its commands, its help text, and the
//! parsing of option values (`NAME[=VALUE]` defines and dialect names).
use vstd::prelude::*;

use crate::raw_headers::Flavor;
use crate::text::{
    chars_of, find_char_from, occurs_at, find_char_s, join2, join3, lemma_find_from_some, str_eq,
    string_of, string_of_range, strs_ref,
};

verus! {

/// The commands of the tool.
#[derive(Debug, Clone, Copy, PartialEq, Eq, Structural)]
pub enum Command {
    Scan,
    ScanPreprocessed,
    InspectSymbols,
    Validate,
    LinkPlan,
    ProbeLayout,
    Help,
}

/// The command a word names, if any.
pub open spec fn command_named(word: Seq<char>) -> Option<Command> {
    if word == "scan"@ {
        Some(Command::Scan)
    } else if word == "scan-preprocessed"@ {
        Some(Command::ScanPreprocessed)
    } else if word == "inspect-symbols"@ {
        Some(Command::InspectSymbols)
    } else if word == "validate"@ {
        Some(Command::Validate)
    } else if word == "link-plan"@ {
        Some(Command::LinkPlan)
    } else if word == "probe-layout"@ {
        Some(Command::ProbeLayout)
    } else if word == "--help"@ || word == "-h"@ || word == "help"@ {
        Some(Command::Help)
    } else {
        None
    }
}

/// The help text of the tool.
pub open spec fn usage_text() -> Seq<char> {
    "Usage:\n  linc scan --header <path> [options]\n  linc scan-preprocessed --file <path> [options]\n  linc inspect-symbols --file <path>\n  linc validate --bindings-json <path> --artifact <path>\n  linc link-plan --bindings-json <path>\n  linc probe-layout --header <path> --type <name> [options]\n\nscan options:\n  --header <path>\n  --include-dir <path>\n  --framework-dir <path>\n  --library-dir <path>\n  --define NAME[=VALUE]\n  --link-lib <name>\n  --link-framework <name>\n  --link-static-lib <name>\n  --link-shared-lib <name>\n  --link-object <path>\n  --link-static-artifact <path>\n  --link-shared-artifact <path>\n  --compiler <cmd>\n  --target-constraint <value>\n  --flavor <gnu|clang|std>\n  --prefer-static\n  --prefer-dynamic\n  --probe-type <name>\n  --no-origin-filter\n\nscan-preprocessed options:\n  --file <path>\n  --source-path <path>\n  --flavor <gnu|clang|std>\n\ninspect-symbols options:\n  --file <path>\n\nvalidate options:\n  --bindings-json <path>\n  --artifact <path>\n\nlink-plan options:\n  --bindings-json <path>\n\nprobe-layout options:\n  --header <path>\n  --include-dir <path>\n  --define NAME[=VALUE]\n  --compiler <cmd>\n  --flavor <gnu|clang|std>\n  --type <name>"@
}

/// The help text of the tool.
pub fn usage() -> (r: String)
    ensures
        r@ == usage_text(),
{
    "Usage:\n  linc scan --header <path> [options]\n  linc scan-preprocessed --file <path> [options]\n  linc inspect-symbols --file <path>\n  linc validate --bindings-json <path> --artifact <path>\n  linc link-plan --bindings-json <path>\n  linc probe-layout --header <path> --type <name> [options]\n\nscan options:\n  --header <path>\n  --include-dir <path>\n  --framework-dir <path>\n  --library-dir <path>\n  --define NAME[=VALUE]\n  --link-lib <name>\n  --link-framework <name>\n  --link-static-lib <name>\n  --link-shared-lib <name>\n  --link-object <path>\n  --link-static-artifact <path>\n  --link-shared-artifact <path>\n  --compiler <cmd>\n  --target-constraint <value>\n  --flavor <gnu|clang|std>\n  --prefer-static\n  --prefer-dynamic\n  --probe-type <name>\n  --no-origin-filter\n\nscan-preprocessed options:\n  --file <path>\n  --source-path <path>\n  --flavor <gnu|clang|std>\n\ninspect-symbols options:\n  --file <path>\n\nvalidate options:\n  --bindings-json <path>\n  --artifact <path>\n\nlink-plan options:\n  --bindings-json <path>\n\nprobe-layout options:\n  --header <path>\n  --include-dir <path>\n  --define NAME[=VALUE]\n  --compiler <cmd>\n  --flavor <gnu|clang|std>\n  --type <name>".to_owned()
}

/// The command named by the first argument; an unknown word is refused with
/// `unknown command 'WORD'` followed by a blank line and the help text.
pub fn parse_command(word: &str) -> (r: Result<Command, String>)
    ensures
        match command_named(word@) {
            Some(c) => r == Ok::<Command, String>(c),
            None => r matches Err(m) && m@ == "unknown command '"@ + word@ + "'\n\n"@ + usage_text(),
        },
{
    if str_eq(word, "scan") {
        Ok(Command::Scan)
    } else if str_eq(word, "scan-preprocessed") {
        Ok(Command::ScanPreprocessed)
    } else if str_eq(word, "inspect-symbols") {
        Ok(Command::InspectSymbols)
    } else if str_eq(word, "validate") {
        Ok(Command::Validate)
    } else if str_eq(word, "link-plan") {
        Ok(Command::LinkPlan)
    } else if str_eq(word, "probe-layout") {
        Ok(Command::ProbeLayout)
    } else if str_eq(word, "--help") || str_eq(word, "-h") || str_eq(word, "help") {
        Ok(Command::Help)
    } else {
        let head = join3("unknown command '", word, "'\n\n");
        let help = usage();
        Err(join2(head.as_str(), help.as_str()))
    }
}

/// The value that follows an option, or `missing value for FLAG` when the arguments
/// end first.
pub fn required_value(args: &[String], index: usize, flag: &str) -> (r: Result<String, String>)
    ensures
        index < args@.len() ==> (r matches Ok(v) && v@ == args@[index as int]@),
        index >= args@.len() ==> (r matches Err(m) && m@ == "missing value for "@ + flag@),
{
    if index < args.len() {
        Ok(args[index].clone())
    } else {
        Err(join2("missing value for ", flag))
    }
}

/// A `NAME[=VALUE]` define: the name before the first `=` and the value after it, or
/// the whole text and no value when there is no `=`.
pub fn parse_define(define: &str) -> (r: (String, Option<String>))
    ensures
        match find_char_s(define@, '=') {
            Some(i) => r.0@ == define@.subrange(0, i) && (r.1 matches Some(v) && v@
                == define@.subrange(i + 1, define@.len() as int)),
            None => r.0@ == define@ && r.1 is None,
        },
{
    let v = chars_of(define);
    let n = v.len();
    match find_char_from(&v, '=', 0) {
        Some(i) => {
            proof {
                lemma_find_from_some(v@, seq!['='], 0);
                assert(occurs_at(v@, seq!['='], i as int));
                assert(seq!['='].len() == 1);
            }
            (string_of_range(&v, 0, i), Some(string_of_range(&v, i + 1, n)))
        },
        None => (string_of(&v), None),
    }
}

/// The dialect a name selects: `gnu`, `clang` and `std`, each also with `-c11`.
pub open spec fn flavor_named(name: Seq<char>) -> Option<Flavor> {
    if name == "gnu"@ || name == "gnu-c11"@ {
        Some(Flavor::GnuC11)
    } else if name == "clang"@ || name == "clang-c11"@ {
        Some(Flavor::ClangC11)
    } else if name == "std"@ || name == "std-c11"@ {
        Some(Flavor::StdC11)
    } else {
        None
    }
}

fn flavor_of(name: &str) -> (r: Option<Flavor>)
    ensures
        r == flavor_named(name@),
{
    if str_eq(name, "gnu") || str_eq(name, "gnu-c11") {
        Some(Flavor::GnuC11)
    } else if str_eq(name, "clang") || str_eq(name, "clang-c11") {
        Some(Flavor::ClangC11)
    } else if str_eq(name, "std") || str_eq(name, "std-c11") {
        Some(Flavor::StdC11)
    } else {
        None
    }
}

/// The dialect of a header scan; another name is refused with
/// `unsupported header flavor 'NAME'`.
pub fn parse_header_flavor(name: &str) -> (r: Result<Flavor, String>)
    ensures
        match flavor_named(name@) {
            Some(f) => r == Ok::<Flavor, String>(f),
            None => r matches Err(m) && m@ == "unsupported header flavor '"@ + name@ + "'"@,
        },
{
    match flavor_of(name) {
        Some(f) => Ok(f),
        None => Err(join3("unsupported header flavor '", name, "'")),
    }
}

/// The dialect of a preprocessed unit; another name is refused with
/// `unsupported preprocessed flavor 'NAME'`.
pub fn parse_preprocessed_flavor(name: &str) -> (r: Result<Flavor, String>)
    ensures
        match flavor_named(name@) {
            Some(f) => r == Ok::<Flavor, String>(f),
            None => r matches Err(m) && m@ == "unsupported preprocessed flavor '"@ + name@ + "'"@,
        },
{
    match flavor_of(name) {
        Some(f) => Ok(f),
        None => Err(join3("unsupported preprocessed flavor '", name, "'")),
    }
}

/// What the arguments of a command hold at a position.
#[derive(Debug, Clone, PartialEq, Eq)]
pub enum OptionStep {
    /// An option that takes a value, its value, and where the next option starts.
    Value { flag: String, value: String, next: usize },
    /// An option without a value, and where the next option starts.
    Switch { flag: String, next: usize },
    /// A request for the help text.
    Help,
    /// No arguments are left.
    Done,
}

fn is_one_of(word: &str, words: &[&str]) -> (r: bool)
    ensures
        r == strs_ref(words@).contains(word@),
{
    let mut i: usize = 0;
    while i < words.len()
        invariant
            i <= words@.len(),
            forall|k: int| 0 <= k < i ==> words@[k]@ != word@,
        decreases words@.len() - i,
    {
        if str_eq(words[i], word) {
            assert(strs_ref(words@)[i as int] == word@);
            return true;
        }
        i = i + 1;
    }
    proof {
        if strs_ref(words@).contains(word@) {
            let k = choose|k: int| 0 <= k < strs_ref(words@).len() && strs_ref(words@)[k] == word@;
            assert(words@[k]@ == word@);
        }
    }
    false
}

/// Reads the option at `index` of a command's arguments. An option of `valued` takes
/// the next argument as its value (`missing value for FLAG` when there is none), an
/// option of `switches` stands alone, `--help` and `-h` ask for the help text, and any
/// other word is refused with `unknown COMMAND option 'WORD'`.
pub fn next_option(args: &[String], index: usize, command: &str, valued: &[&str], switches: &[&str]) -> (r: Result<OptionStep, String>)
    ensures
        index >= args@.len() ==> r == Ok::<OptionStep, String>(OptionStep::Done),
        index < args@.len() ==> {
            let word = args@[index as int]@;
            if strs_ref(valued@).contains(word) {
                if index + 1 < args@.len() {
                    r matches Ok(OptionStep::Value { flag, value, next }) && flag@ == word && value@
                        == args@[index + 1]@ && next == index + 2
                } else {
                    r matches Err(m) && m@ == "missing value for "@ + word
                }
            } else if strs_ref(switches@).contains(word) {
                r matches Ok(OptionStep::Switch { flag, next }) && flag@ == word && next == index + 1
            } else if word == "--help"@ || word == "-h"@ {
                r == Ok::<OptionStep, String>(OptionStep::Help)
            } else {
                r matches Err(m) && m@ == "unknown "@ + command@ + " option '"@ + word + "'"@
            }
        },
{
    if index >= args.len() {
        return Ok(OptionStep::Done);
    }
    let word = args[index].as_str();
    if is_one_of(word, valued) {
        if index + 1 < args.len() {
            Ok(OptionStep::Value { flag: args[index].clone(), value: args[index + 1].clone(), next: index + 2 })
        } else {
            Err(join2("missing value for ", word))
        }
    } else if is_one_of(word, switches) {
        Ok(OptionStep::Switch { flag: args[index].clone(), next: index + 1 })
    } else if str_eq(word, "--help") || str_eq(word, "-h") {
        Ok(OptionStep::Help)
    } else {
        let head = join3("unknown ", command, " option '");
        Err(join3(head.as_str(), word, "'"))
    }
}

} // verus!
