//! Composition of the shell command line for one script invocation.
//!
//! An argument that contains a whitespace character is wrapped in single
//! quotes verbatim (no escaping of embedded quotes); the quoted arguments are
//! space-joined and appended to the command template to form one shell line.

use vstd::prelude::*;

verus! {

/// Whether the character is whitespace: the Unicode White_Space code
/// points, the set Rust's `char::is_whitespace` recognises.
pub open spec fn is_whitespace_char(c: char) -> bool {
    let n = c as u32;
    n == 0x09 || n == 0x0A || n == 0x0B || n == 0x0C || n == 0x0D || n == 0x20 || n == 0x85
        || n == 0xA0 || n == 0x1680 || (0x2000 <= n && n <= 0x200A) || n == 0x2028 || n == 0x2029
        || n == 0x202F || n == 0x205F || n == 0x3000
}

/// An argument is quoted exactly when it contains a whitespace character.
pub open spec fn needs_quoting(s: Seq<char>) -> bool {
    exists|i: int| 0 <= i < s.len() && is_whitespace_char(s[i])
}

/// A quoted argument is wrapped in single quotes verbatim; any other
/// argument passes through unchanged.
pub open spec fn quoted_arg(s: Seq<char>) -> Seq<char> {
    if needs_quoting(s) {
        seq!['\''] + s + seq!['\'']
    } else {
        s
    }
}

/// The quoted arguments, joined by single spaces.
pub open spec fn joined_args(args: Seq<Seq<char>>) -> Seq<char>
    decreases args.len(),
{
    if args.len() == 0 {
        Seq::empty()
    } else if args.len() == 1 {
        quoted_arg(args[0])
    } else {
        joined_args(args.drop_last()) + seq![' '] + quoted_arg(args.last())
    }
}

/// The full shell line: the template alone when there are no arguments,
/// otherwise the template, one space, and the joined quoted arguments.
pub open spec fn command_line(template: Seq<char>, args: Seq<Seq<char>>) -> Seq<char> {
    if args.len() == 0 {
        template
    } else {
        template + seq![' '] + joined_args(args)
    }
}

/// The views of a sequence of owned argument strings.
pub open spec fn args_view(args: Seq<String>) -> Seq<Seq<char>> {
    args.map_values(|a: String| a@)
}

/// Whether this character counts as whitespace.
pub fn is_whitespace(c: char) -> (r: bool)
    ensures
        r == is_whitespace_char(c),
{
    let n = c as u32;
    n == 0x09 || n == 0x0A || n == 0x0B || n == 0x0C || n == 0x0D || n == 0x20 || n == 0x85
        || n == 0xA0 || n == 0x1680 || (0x2000 <= n && n <= 0x200A) || n == 0x2028 || n == 0x2029
        || n == 0x202F || n == 0x205F || n == 0x3000
}

/// Whether the string holds any whitespace character.
pub fn contains_whitespace(s: &str) -> (r: bool)
    ensures
        r == needs_quoting(s@),
{
    let n = s.unicode_len();
    let mut i: usize = 0;
    while i < n
        invariant
            i <= n,
            n == s@.len(),
            forall|j: int| 0 <= j < i ==> !is_whitespace_char(s@[j]),
        decreases n - i,
    {
        let c = s.get_char(i);
        if is_whitespace(c) {
            return true;
        }
        i += 1;
    }
    false
}

/// Quote one argument as the shell line requires.
pub fn quote_arg(s: &String) -> (r: String)
    ensures
        r@ == quoted_arg(s@),
{
    if contains_whitespace(s.as_str()) {
        let q = String::from_str("'");
        let r = q.concat(s.as_str()).concat("'");
        proof {
            reveal_strlit("'");
            assert(r@ =~= seq!['\''] + s@ + seq!['\'']);
        }
        r
    } else {
        s.clone()
    }
}

/// Compose the full shell line for a command template and its arguments.
pub fn compose_command_line(template: &String, args: &Vec<String>) -> (r: String)
    ensures
        r@ == command_line(template@, args_view(args@)),
{
    if args.len() == 0 {
        return template.clone();
    }
    let mut joined = quote_arg(&args[0]);
    proof {
        let vs = args_view(args@);
        assert(vs.take(1) =~= seq![vs[0]]);
        assert(joined@ == joined_args(vs.take(1)));
    }
    let mut i: usize = 1;
    while i < args.len()
        invariant
            1 <= i <= args@.len(),
            joined@ == joined_args(args_view(args@).take(i as int)),
        decreases args@.len() - i,
    {
        joined.append(" ");
        let q = quote_arg(&args[i]);
        joined.append(q.as_str());
        proof {
            reveal_strlit(" ");
            let vs = args_view(args@);
            assert(vs.take(i + 1).drop_last() =~= vs.take(i as int));
            assert(vs.take(i + 1).last() == vs[i as int]);
            assert(joined@ =~= joined_args(vs.take(i + 1)));
        }
        i += 1;
    }
    let mut r = template.clone();
    r.append(" ");
    r.append(joined.as_str());
    proof {
        reveal_strlit(" ");
        let vs = args_view(args@);
        assert(vs.take(args@.len() as int) =~= vs);
        assert(r@ =~= command_line(template@, vs));
    }
    r
}

} // verus!
