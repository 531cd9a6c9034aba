//! Command lines with placeholders: a `%name%` in a command stands for the
//! argument of that name.

use vstd::prelude::*;
use crate::text::{chars_of, join, lemma_join_push, rows, split, split_chars, string_of_chars};

verus! {

/// The seconds that a command may run where its tool names no limit.
pub open spec fn default_timeout() -> u64 {
    10
}

/// The seconds that a command may run where its tool names no limit.
pub fn _default_timeout() -> (seconds: u64)
    ensures
        seconds == default_timeout(),
{
    10
}

/// The text with each occurrence of `pat` replaced by `to`, the
/// occurrences taken from the left and never overlapping.
pub open spec fn replace(s: Seq<char>, pat: Seq<char>, to: Seq<char>) -> Seq<char> {
    join(split(s, pat), to)
}

/// How an argument's name stands in a command: between two percent signs.
pub open spec fn placeholder(name: Seq<char>) -> Seq<char> {
    seq!['%'] + name + seq!['%']
}

/// The text with the placeholder of each argument replaced by the
/// argument's value, one argument after the other.
pub open spec fn replace_args(x: Seq<char>, args: Seq<(Seq<char>, Seq<char>)>) -> Seq<char>
    decreases args.len(),
{
    if args.len() == 0 {
        x
    } else {
        replace(replace_args(x, args.drop_last()), placeholder(args.last().0), args.last().1)
    }
}

/// The views of arguments.
pub open spec fn arg_views(args: Seq<(String, String)>) -> Seq<(Seq<char>, Seq<char>)> {
    args.map_values(|arg: (String, String)| (arg.0@, arg.1@))
}

/// Puts the parts together with `sep` between each two neighbours.
pub fn join_chars(parts: &Vec<Vec<char>>, sep: &Vec<char>) -> (out: Vec<char>)
    ensures
        out@ == join(rows(parts@), sep@),
{
    let mut out: Vec<char> = Vec::new();
    let mut i: usize = 0;
    while i < parts.len()
        invariant
            i <= parts.len(),
            out@ == join(rows(parts@).take(i as int), sep@),
        decreases parts.len() - i,
    {
        let ghost before = out@;
        if i > 0 {
            let mut k: usize = 0;
            while k < sep.len()
                invariant
                    k <= sep.len(),
                    out@ == before + sep@.take(k as int),
                decreases sep.len() - k,
            {
                out.push(sep[k]);
                k += 1;
                proof {
                    assert(out@ =~= before + sep@.take(k as int));
                }
            }
            proof {
                assert(sep@.take(sep.len() as int) =~= sep@);
            }
        }
        let ghost middle = out@;
        let part = &parts[i];
        let mut k: usize = 0;
        while k < part.len()
            invariant
                k <= part.len(),
                out@ == middle + part@.take(k as int),
            decreases part.len() - k,
        {
            out.push(part[k]);
            k += 1;
            proof {
                assert(out@ =~= middle + part@.take(k as int));
            }
        }
        proof {
            assert(part@.take(part.len() as int) =~= part@);
            let front = rows(parts@).take(i as int);
            lemma_join_push(front, sep@, part@);
            assert(rows(parts@).take(i + 1) =~= front.push(part@));
            assert(out@ =~= join(rows(parts@).take(i + 1), sep@));
        }
        i += 1;
    }
    proof {
        assert(rows(parts@).take(parts.len() as int) =~= rows(parts@));
    }
    out
}

/// Replaces the placeholder of each argument by the argument's value, one
/// argument after the other.
pub fn _replace_args(x: &str, args_str: &Vec<(String, String)>) -> (result: String)
    ensures
        result@ == replace_args(x@, arg_views(args_str@)),
{
    let ghost args = arg_views(args_str@);
    let mut result = chars_of(x);
    let mut i: usize = 0;
    while i < args_str.len()
        invariant
            i <= args_str.len(),
            args == arg_views(args_str@),
            result@ == replace_args(x@, args.take(i as int)),
        decreases args_str.len() - i,
    {
        let name = chars_of(args_str[i].0.as_str());
        let value = chars_of(args_str[i].1.as_str());
        let mut wanted: Vec<char> = Vec::new();
        wanted.push('%');
        let mut k: usize = 0;
        while k < name.len()
            invariant
                k <= name.len(),
                wanted@ == seq!['%'] + name@.take(k as int),
            decreases name.len() - k,
        {
            wanted.push(name[k]);
            k += 1;
            proof {
                assert(wanted@ =~= seq!['%'] + name@.take(k as int));
            }
        }
        wanted.push('%');
        proof {
            assert(name@.take(name.len() as int) =~= name@);
            assert(wanted@ =~= placeholder(name@));
        }
        let pieces = split_chars(&result, &wanted);
        result = join_chars(&pieces, &value);
        proof {
            assert(args.take(i + 1).drop_last() =~= args.take(i as int));
            assert(args.take(i + 1).last() == (name@, value@));
        }
        i += 1;
    }
    proof {
        assert(args.take(args_str.len() as int) =~= args);
    }
    string_of_chars(&result)
}

} // verus!
