//! Command-line argument handling.

use vstd::prelude::*;
use crate::text::{str_chars, str_eq, string_from_chars};

verus! {

pub open spec fn arg_views(args: Seq<String>) -> Seq<Seq<char>> {
    args.map_values(|a: String| a@)
}

/// The first index of `flag` in `args`, if it occurs.
pub open spec fn flag_position(args: Seq<Seq<char>>, flag: Seq<char>) -> Option<int> {
    if exists|i: int| 0 <= i < args.len() && args[i] == flag {
        Some(
            choose|i: int|
                0 <= i < args.len() && args[i] == flag && forall|j: int|
                    0 <= j < i ==> args[j] != flag,
        )
    } else {
        None
    }
}

/// The message for a flag given last, without its value.
pub open spec fn missing_value_message(flag: Seq<char>) -> Seq<char> {
    flag + " requires a value"@
}

/// Take `flag` and the argument after it out of `args`, returning that
/// argument. Without the flag nothing changes and the answer is `None`;
/// with the flag last, nothing changes and the answer is an error.
pub fn take_flag_value(args: &mut Vec<String>, flag: &str) -> (r: Result<Option<String>, String>)
    ensures
        match flag_position(arg_views(old(args)@), flag@) {
            None => r == Ok::<Option<String>, String>(None) && final(args)@ == old(args)@,
            Some(pos) => if pos + 1 >= old(args)@.len() {
                r matches Err(e) && e@ == missing_value_message(flag@) && final(args)@ == old(
                    args,
                )@
            } else {
                r matches Ok(Some(v)) && v@ == old(args)@[pos + 1]@ && final(args)@ == old(
                    args,
                )@.remove(pos).remove(pos)
            },
        },
{
    let ghost av = arg_views(args@);
    let mut pos: usize = 0;
    while pos < args.len() && !str_eq(args[pos].as_str(), flag)
        invariant
            pos <= args.len(),
            av == arg_views(args@),
            forall|j: int| 0 <= j < pos ==> av[j] != flag@,
        decreases args.len() - pos,
    {
        pos += 1;
    }
    if pos == args.len() {
        assert(!exists|i: int| 0 <= i < av.len() && av[i] == flag@) by {
            if exists|i: int| 0 <= i < av.len() && av[i] == flag@ {
                let i = choose|i: int| 0 <= i < av.len() && av[i] == flag@;
                assert(av[i] != flag@);
            }
        }
        return Ok(None);
    }
    proof {
        assert(av[pos as int] == flag@);
        let p = choose|i: int|
            0 <= i < av.len() && av[i] == flag@ && forall|j: int| 0 <= j < i ==> av[j] != flag@;
        assert(p == pos) by {
            if p < pos {
                assert(av[p] != flag@);
            }
            if p > pos {
                assert(av[pos as int] != flag@);
            }
        }
    }
    if pos + 1 >= args.len() {
        let mut msg = str_chars(flag);
        let tail = str_chars(" requires a value");
        let mut k: usize = 0;
        let ghost base = msg@;
        while k < tail.len()
            invariant
                k <= tail.len(),
                msg@ == base + tail@.take(k as int),
            decreases tail.len() - k,
        {
            msg.push(tail[k]);
            assert(tail@.take(k + 1) =~= tail@.take(k as int).push(tail@[k as int]));
            k += 1;
        }
        assert(tail@.take(tail.len() as int) =~= tail@);
        proof {
            reveal_strlit(" requires a value");
        }
        return Err(string_from_chars(msg.as_slice()));
    }
    args.remove(pos);
    let v = args.remove(pos);
    Ok(Some(v))
}

} // verus!
