//! Reading a value out of a command line: the one decision argument
//! handling makes that is not input or output.

use vstd::prelude::*;

use crate::matcher::chars_equal;
use crate::matcher::chars_vec;

verus! {

/// The value that follows the first occurrence of `flag` among the
/// arguments: the very next argument, whatever it holds.  There is none
/// when the flag never occurs, and none when it occurs last — its value
/// is missing.
pub open spec fn flag_value(args: Seq<String>, flag: Seq<char>) -> Option<Seq<char>>
    decreases args.len(),
{
    if args.len() == 0 {
        None
    } else if args[0]@ == flag {
        if args.len() >= 2 {
            Some(args[1]@)
        } else {
            None
        }
    } else {
        flag_value(args.drop_first(), flag)
    }
}

proof fn lemma_flag_value_step(args: Seq<String>, flag: Seq<char>, i: int)
    requires
        0 <= i < args.len(),
        args[i]@ != flag,
    ensures
        flag_value(args.skip(i), flag) == flag_value(args.skip(i + 1), flag),
{
    assert(args.skip(i).drop_first() =~= args.skip(i + 1));
    assert(args.skip(i)[0] == args[i]);
}

/// Scans the arguments for `flag` and hands back the value that follows
/// its first occurrence.  `None` means the caller must fall back to
/// prompting the user: the flag is absent, or present with its value
/// missing.
pub fn get_flag_or_prompt(args: &Vec<String>, flag: &str) -> (r: Option<String>)
    ensures
        match r {
            Some(v) => flag_value(args@, flag@) == Some(v@),
            None => flag_value(args@, flag@) is None,
        },
{
    let flag_chars = chars_vec(flag);
    proof {
        assert(args@.skip(0) =~= args@);
    }
    let mut i: usize = 0;
    while i < args.len()
        invariant
            i <= args@.len(),
            flag_chars@ == flag@,
            flag_value(args@, flag@) == flag_value(args@.skip(i as int), flag@),
        decreases args@.len() - i,
    {
        let arg_chars = chars_vec(args[i].as_str());
        let hit = chars_equal(&arg_chars, &flag_chars);
        proof {
            assert(args@.skip(i as int)[0] == args@[i as int]);
        }
        if hit {
            if i + 1 < args.len() {
                proof {
                    assert(args@.skip(i as int)[1] == args@[i + 1]);
                    assert(args@.skip(i as int).len() >= 2);
                }
                return Some(args[i + 1].clone());
            }
            proof {
                assert(args@.skip(i as int).len() < 2);
            }
            return None;
        }
        proof {
            lemma_flag_value_step(args@, flag@, i as int);
        }
        i = i + 1;
    }
    proof {
        assert(args@.skip(args@.len() as int) =~= Seq::<String>::empty());
    }
    None
}

} // verus!
