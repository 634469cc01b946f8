//! Flags and values among command-line arguments.

use vstd::prelude::*;

use crate::text;
use crate::text::same_text;

verus! {

/// Whether a flag is among the arguments.
pub open spec fn present(args: Seq<Seq<char>>, flag: Seq<char>) -> bool {
    exists|i: int| 0 <= i < args.len() && #[trigger] args[i] == flag
}

/// The value of a flag: the argument after the first occurrence of the flag that has
/// one.
pub open spec fn value_of(args: Seq<Seq<char>>, flag: Seq<char>) -> Option<Seq<char>>
    decreases args.len(),
{
    if args.len() < 2 {
        None
    } else if args[0] == flag {
        Some(args[1])
    } else {
        value_of(args.drop_first(), flag)
    }
}

/// The text of an optional argument.
pub open spec fn text_of(s: Option<&str>) -> Option<Seq<char>> {
    match s {
        Some(s) => Some(s@),
        None => None,
    }
}

/// Whether a flag is among the arguments.
pub fn has_flag(args: &Vec<String>, flag: &str) -> (found: bool)
    ensures
        found == present(text::texts(args@), flag@),
{
    let mut i: usize = 0;
    while i < args.len()
        invariant
            i <= args@.len(),
            forall|j: int| 0 <= j < i ==> (#[trigger] text::texts(args@)[j]) != flag@,
        decreases args@.len() - i,
    {
        if same_text(args[i].as_str(), flag) {
            assert(text::texts(args@)[i as int] == flag@);
            return true;
        }
        i = i + 1;
    }
    false
}

/// Where no argument before a place is the flag, the value of the flag is that of the
/// arguments from there on.
proof fn value_after(args: Seq<Seq<char>>, flag: Seq<char>, i: int)
    requires
        0 <= i <= args.len(),
        forall|j: int| 0 <= j < i ==> (#[trigger] args[j]) != flag,
    ensures
        value_of(args, flag) == value_of(args.skip(i), flag),
    decreases i,
{
    if i == 0 {
        assert(args.skip(0) =~= args);
    } else {
        value_after(args, flag, i - 1);
        let rest = args.skip(i - 1);
        if rest.len() >= 2 {
            assert(rest[0] == args[i - 1]);
            assert(rest.drop_first() =~= args.skip(i));
        } else {
            assert(args.skip(i).len() < 2);
        }
    }
}

/// The value of a flag, among the pairs of neighbouring arguments.
pub fn cli_value<'a>(args: &'a Vec<String>, flag: &str) -> (value: Option<&'a str>)
    ensures
        text_of(value) == value_of(text::texts(args@), flag@),
{
    let mut i: usize = 0;
    while i < args.len() && args.len() - i > 1
        invariant
            i <= args@.len(),
            forall|j: int| 0 <= j < i ==> (#[trigger] text::texts(args@)[j]) != flag@,
        decreases args@.len() - i,
    {
        if same_text(args[i].as_str(), flag) {
            proof {
                value_after(text::texts(args@), flag@, i as int);
                let rest = text::texts(args@).skip(i as int);
                assert(rest[0] == args@[i as int]@);
                assert(rest[1] == args@[i + 1]@);
            }
            return Some(args[i + 1].as_str());
        }
        i = i + 1;
    }
    proof {
        value_after(text::texts(args@), flag@, i as int);
    }
    None
}

/// The value of a flag, after the first place of the flag.
pub fn arg_value<'a>(args: &'a Vec<String>, key: &str) -> (value: Option<&'a str>)
    ensures
        text_of(value) == value_of(text::texts(args@), key@),
{
    let mut i: usize = 0;
    while i < args.len()
        invariant
            i <= args@.len(),
            forall|j: int| 0 <= j < i ==> (#[trigger] text::texts(args@)[j]) != key@,
        decreases args@.len() - i,
    {
        if same_text(args[i].as_str(), key) {
            proof {
                value_after(text::texts(args@), key@, i as int);
                let rest = text::texts(args@).skip(i as int);
                assert(rest[0] == args@[i as int]@);
                if args@.len() - i > 1 {
                    assert(rest[1] == args@[i + 1]@);
                }
            }
            if args.len() - i > 1 {
                return Some(args[i + 1].as_str());
            }
            return None;
        }
        i = i + 1;
    }
    proof {
        value_after(text::texts(args@), key@, i as int);
    }
    None
}

/// A flag has a value exactly where it is among the arguments and not only the last of them;
/// the value is the argument behind its first place.
pub proof fn values_stand_behind_their_flags(args: Seq<Seq<char>>, flag: Seq<char>, i: int)
    requires
        forall|j: int| 0 <= j < i ==> (#[trigger] args[j]) != flag,
    ensures
        0 <= i < args.len() - 1 && args[i] == flag ==> value_of(args, flag) == Some(args[i + 1]),
        i == args.len() - 1 ==> value_of(args, flag) is None,
        args.len() == 0 ==> value_of(args, flag) is None,
    decreases i,
{
    if 0 < i < args.len() {
        assert(args[0] != flag);
        let rest = args.drop_first();
        assert forall|j: int| 0 <= j < i - 1 implies (#[trigger] rest[j]) != flag by {
            assert(rest[j] == args[j + 1]);
        }
        values_stand_behind_their_flags(rest, flag, i - 1);
    }
}

} // verus!
