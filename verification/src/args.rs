//! The command line, and the choice of the target to examine.

use crate::db::Target;
use crate::utils::{describe_target_kind, description_of};
use std::path::PathBuf;
use vstd::prelude::*;
use vstd::string::StringExecFns;

verus! {

/// A path of the file system, `std::path::PathBuf`.
#[verifier::external_type_specification]
#[verifier::external_body]
pub struct ExPathBuf(PathBuf);

/// What a run works on: the directory of the project, and the name that picks one of its
/// targets.
pub struct Args {
    pub directory: PathBuf,
    pub crate_filter: Option<String>,
}

impl Args {
    /// The name that picks the target, as a text.
    pub open spec fn filter_view(&self) -> Option<Seq<char>> {
        match self.crate_filter {
            Some(filter) => Some(filter@),
            None => None,
        }
    }
}

/// What the command line asks for.
pub enum Parsed {
    /// The usage text, and nothing else.
    Help,
    /// The version, and nothing else.
    Version,
    /// Two names of crates were given.
    MultipleCrates { first: String, second: String },
    /// Two directories were given.
    MultipleDirectories { first: String, second: String },
    /// A run, on the current directory where none was given.
    Run { directory: Option<String>, crate_filter: Option<String> },
}

/// [`Parsed`] as mathematics.
pub enum Request {
    Help,
    Version,
    MultipleCrates { first: Seq<char>, second: Seq<char> },
    MultipleDirectories { first: Seq<char>, second: Seq<char> },
    Run { directory: Option<Seq<char>>, crate_filter: Option<Seq<char>> },
}

/// An optional string as an optional text.
pub open spec fn text_view(text: Option<String>) -> Option<Seq<char>> {
    match text {
        Some(text) => Some(text@),
        None => None,
    }
}

impl View for Parsed {
    type V = Request;

    open spec fn view(&self) -> Request {
        match *self {
            Parsed::Help => Request::Help,
            Parsed::Version => Request::Version,
            Parsed::MultipleCrates { first, second } => Request::MultipleCrates {
                first: first@,
                second: second@,
            },
            Parsed::MultipleDirectories { first, second } => Request::MultipleDirectories {
                first: first@,
                second: second@,
            },
            Parsed::Run { directory, crate_filter } => Request::Run {
                directory: text_view(directory),
                crate_filter: text_view(crate_filter),
            },
        }
    }
}

/// The arguments as texts.
pub open spec fn texts_of(args: Seq<String>) -> Seq<Seq<char>> {
    Seq::new(args.len(), |i: int| args[i]@)
}

/// What the arguments ask for, read from the left, when `directory` and `crate_filter` are
/// what was read before them. The first argument that settles the matter does so:
/// `-h` or `--help`, `-v` or `--version`, a second crate or a second directory. `-c` or
/// `--crate` takes the argument behind it as the crate; without one behind it, it is
/// itself read as a directory, as is every other argument.
pub open spec fn request_from(
    args: Seq<Seq<char>>,
    directory: Option<Seq<char>>,
    crate_filter: Option<Seq<char>>,
) -> Request
    decreases args.len(),
{
    if args.len() == 0 {
        Request::Run { directory, crate_filter }
    } else if args[0] == "-h"@ || args[0] == "--help"@ {
        Request::Help
    } else if args[0] == "-v"@ || args[0] == "--version"@ {
        Request::Version
    } else if (args[0] == "-c"@ || args[0] == "--crate"@) && args.len() >= 2 {
        match crate_filter {
            Some(first) => Request::MultipleCrates { first, second: args[1] },
            None => request_from(args.skip(2), directory, Some(args[1])),
        }
    } else {
        match directory {
            Some(first) => Request::MultipleDirectories { first, second: args[0] },
            None => request_from(args.skip(1), Some(args[0]), crate_filter),
        }
    }
}

/// What the arguments of a command line ask for.
pub open spec fn request_of(args: Seq<Seq<char>>) -> Request {
    request_from(args, None, None)
}

/// Whether the argument is the given text.
fn is_text(arg: &String, text: &str) -> (same: bool)
    ensures
        same == (arg@ == text@),
{
    let text = String::from_str(text);
    *arg == text
}

/// Reads the arguments of the command line, the name of the program left out.
pub fn parse(args: &Vec<String>) -> (parsed: Parsed)
    ensures
        parsed@ == request_of(texts_of(args@)),
{
    let ghost all = texts_of(args@);
    let mut directory: Option<String> = None;
    let mut crate_filter: Option<String> = None;
    let mut i: usize = 0;
    assert(all.skip(0) =~= all);
    while i < args.len()
        invariant
            i <= args.len(),
            all == texts_of(args@),
            request_of(all) == request_from(
                all.skip(i as int),
                text_view(directory),
                text_view(crate_filter),
            ),
        decreases args.len() - i,
    {
        let ghost rest = all.skip(i as int);
        assert(rest[0] == args[i as int]@);
        let arg = &args[i];
        if is_text(arg, "-h") || is_text(arg, "--help") {
            return Parsed::Help;
        }
        if is_text(arg, "-v") || is_text(arg, "--version") {
            return Parsed::Version;
        }
        if (is_text(arg, "-c") || is_text(arg, "--crate")) && args.len() - i >= 2 {
            assert(rest[1] == args[i + 1]@);
            assert(rest.skip(2) =~= all.skip(i + 2));
            let crate_filter_arg = args[i + 1].clone();
            if let Some(first) = crate_filter {
                return Parsed::MultipleCrates { first, second: crate_filter_arg };
            }
            crate_filter = Some(crate_filter_arg);
            i += 2;
        } else {
            assert(rest.skip(1) =~= all.skip(i + 1));
            let dir_arg = arg.clone();
            if let Some(first) = directory {
                return Parsed::MultipleDirectories { first, second: dir_arg };
            }
            directory = Some(dir_arg);
            i += 1;
        }
    }
    Parsed::Run { directory, crate_filter }
}

/// What is said of a command line that cannot be followed; `None` of one that can.
pub open spec fn complaint_of(request: Request) -> Option<Seq<char>> {
    match request {
        Request::MultipleCrates { first, second } => Some(
            "multiple crates provided: '"@ + first + "' and '"@ + second + "'"@,
        ),
        Request::MultipleDirectories { first, second } => Some(
            "multiple directories provided: '"@ + first + "' and '"@ + second + "'"@,
        ),
        _ => None,
    }
}

/// The complaint about a command line that cannot be followed.
pub fn complaint(parsed: &Parsed) -> (message: Option<String>)
    ensures
        text_view(message) == complaint_of(parsed@),
{
    match parsed {
        Parsed::MultipleCrates { first, second } => {
            let mut message = String::from_str("multiple crates provided: '");
            message.append(first.as_str());
            message.append("' and '");
            message.append(second.as_str());
            message.append("'");
            Some(message)
        },
        Parsed::MultipleDirectories { first, second } => {
            let mut message = String::from_str("multiple directories provided: '");
            message.append(first.as_str());
            message.append("' and '");
            message.append(second.as_str());
            message.append("'");
            Some(message)
        },
        _ => None,
    }
}

/// The code with which the program ends at once, for a command line that asks for no run:
/// 0 where it asked for the usage text or the version, 1 where it cannot be followed.
pub open spec fn exit_code_of(request: Request) -> Option<i32> {
    match request {
        Request::Help => Some(0i32),
        Request::Version => Some(0i32),
        Request::MultipleCrates { .. } => Some(1i32),
        Request::MultipleDirectories { .. } => Some(1i32),
        Request::Run { .. } => None,
    }
}

/// The code with which the program ends at once; `None` where it goes on to a run.
pub fn exit_code(parsed: &Parsed) -> (code: Option<i32>)
    ensures
        code == exit_code_of(parsed@),
{
    match parsed {
        Parsed::Help => Some(0),
        Parsed::Version => Some(0),
        Parsed::MultipleCrates { .. } => Some(1),
        Parsed::MultipleDirectories { .. } => Some(1),
        Parsed::Run { .. } => None,
    }
}

/// Why no target could be chosen.
#[derive(Clone, Copy, Debug, PartialEq, Eq, Structural)]
pub enum ChooseError {
    /// The project has no target of its own.
    NoTargets,
    /// There are several targets, and no name to pick one by.
    FilterNeeded,
    /// There are several targets, and the name picks none of them.
    NoMatch,
}

/// Whether `needle` stands somewhere in `hay`.
pub open spec fn occurs_in(needle: Seq<char>, hay: Seq<char>) -> bool {
    exists|at: int|
        0 <= at && at + needle.len() <= hay.len() && #[trigger] hay.subrange(
            at,
            at + needle.len(),
        ) == needle
}

/// The names of the targets.
pub open spec fn names_of(targets: Seq<Target>) -> Seq<Seq<char>> {
    Seq::new(targets.len(), |i: int| targets[i].name@)
}

/// The index of the first of the names in which the filter stands.
pub open spec fn first_holding(names: Seq<Seq<char>>, filter: Seq<char>) -> Option<int>
    decreases names.len(),
{
    if names.len() == 0 {
        None
    } else {
        match first_holding(names.drop_last(), filter) {
            Some(index) => Some(index),
            None => if occurs_in(filter, names.last()) {
                Some(names.len() - 1)
            } else {
                None
            },
        }
    }
}

/// The index of the target to examine: the only one; or, of several, the first whose name
/// holds the filter.
pub open spec fn choice_of(filter: Option<Seq<char>>, names: Seq<Seq<char>>) -> Result<
    int,
    ChooseError,
> {
    if names.len() == 0 {
        Err(ChooseError::NoTargets)
    } else if names.len() == 1 {
        Ok(0)
    } else {
        match filter {
            None => Err(ChooseError::FilterNeeded),
            Some(filter) => match first_holding(names, filter) {
                Some(index) => Ok(index),
                None => Err(ChooseError::NoMatch),
            },
        }
    }
}

/// [`first_holding`] is what its name says: `None` where the filter stands in no name,
/// else the index of a name in which it stands and before which it stands in none.
pub proof fn lemma_first_holding(names: Seq<Seq<char>>, filter: Seq<char>)
    ensures
        match first_holding(names, filter) {
            Some(index) => 0 <= index < names.len() && occurs_in(filter, names[index])
                && forall|j: int| 0 <= j < index ==> !occurs_in(filter, #[trigger] names[j]),
            None => forall|j: int| 0 <= j < names.len() ==> !occurs_in(filter, #[trigger] names[j]),
        },
    decreases names.len(),
{
    if names.len() > 0 {
        lemma_first_holding(names.drop_last(), filter);
        assert forall|j: int| 0 <= j < names.len() - 1 implies names.drop_last()[j]
            == names[j] by {}
        match first_holding(names.drop_last(), filter) {
            Some(index) => {
                assert forall|j: int| 0 <= j < index implies !occurs_in(
                    filter,
                    #[trigger] names[j],
                ) by {
                    assert(names.drop_last()[j] == names[j]);
                }
            },
            None => {
                assert forall|j: int| 0 <= j < names.len() - 1 implies !occurs_in(
                    filter,
                    #[trigger] names[j],
                ) by {
                    assert(names.drop_last()[j] == names[j]);
                }
            },
        }
    }
}

/// `str::contains` with a string as the pattern: whether the pattern stands somewhere in
/// the text.
#[verifier::external_body]
fn text_contains(hay: &str, needle: &str) -> (found: bool)
    ensures
        found == occurs_in(needle@, hay@),
{
    hay.contains(needle)
}

/// The target to examine: the only one; or, of several, the first whose name holds the
/// filter.
pub fn choose_target<'a>(args: &Args, targets: &'a [Target]) -> (chosen: Result<
    &'a Target,
    ChooseError,
>)
    ensures
        match chosen {
            Ok(target) => choice_of(args.filter_view(), names_of(targets@)) matches Ok(index)
                && *target == targets[index],
            Err(error) => choice_of(args.filter_view(), names_of(targets@)) == Err::<
                int,
                ChooseError,
            >(error),
        },
{
    let ghost names = names_of(targets@);
    if targets.len() == 0 {
        return Err(ChooseError::NoTargets);
    }
    if targets.len() == 1 {
        return Ok(&targets[0]);
    }
    let Some(crate_filter) = &args.crate_filter else {
        return Err(ChooseError::FilterNeeded);
    };
    let mut i: usize = 0;
    while i < targets.len()
        invariant
            i <= targets.len(),
            targets.len() >= 2,
            args.filter_view() == Some(crate_filter@),
            names == names_of(targets@),
            forall|j: int| 0 <= j < i ==> !occurs_in(crate_filter@, #[trigger] names[j]),
        decreases targets.len() - i,
    {
        if text_contains(targets[i].name.as_str(), crate_filter.as_str()) {
            proof {
                assert(names[i as int] == targets[i as int].name@);
                lemma_first_holding(names, crate_filter@);
            }
            return Ok(&targets[i]);
        }
        i += 1;
    }
    proof {
        lemma_first_holding(names, crate_filter@);
    }
    Err(ChooseError::NoMatch)
}

/// The list of the targets: a heading, then a line for each with its name and kind.
pub open spec fn listing_of(targets: Seq<Target>) -> Seq<char>
    decreases targets.len(),
{
    if targets.len() == 0 {
        "Available crates:\n"@
    } else {
        listing_of(targets.drop_last()) + "    "@ + targets.last().name@ + " ("@ + description_of(
            targets.last().kind,
        ) + ")\n"@
    }
}

/// The list of the targets to choose from.
pub fn print_targets(targets: &[Target]) -> (listing: String)
    ensures
        listing@ == listing_of(targets@),
{
    let mut listing = String::from_str("Available crates:\n");
    let mut i: usize = 0;
    assert(targets@.take(0) =~= Seq::empty());
    while i < targets.len()
        invariant
            i <= targets.len(),
            listing@ == listing_of(targets@.take(i as int)),
        decreases targets.len() - i,
    {
        proof {
            let upto = targets@.take(i + 1);
            assert(upto.drop_last() =~= targets@.take(i as int));
            assert(upto.last() == targets[i as int]);
        }
        listing.append("    ");
        listing.append(targets[i].name.as_str());
        listing.append(" (");
        listing.append(describe_target_kind(targets[i].kind));
        listing.append(")\n");
        assert(listing@ =~= listing_of(targets@.take(i + 1)));
        i += 1;
    }
    assert(targets@.take(targets.len() as int) =~= targets@);
    listing
}

} // verus!
