//! Input classification: option-like tokens are separated from positional
//! ones, a request for usage text is recognized, and the positional tokens
//! are joined with single spaces into the candidate string.

use vstd::prelude::*;

verus! {

/// A token is option-like when it starts with a dash.
pub open spec fn is_option_token(s: Seq<char>) -> bool {
    s.len() > 0 && s[0] == '-'
}

/// The positional (non-option) tokens, in order.
pub open spec fn positionals(args: Seq<Seq<char>>) -> Seq<Seq<char>>
    decreases args.len(),
{
    if args.len() == 0 {
        Seq::empty()
    } else {
        let rest = positionals(args.drop_last());
        if is_option_token(args.last()) {
            rest
        } else {
            rest.push(args.last())
        }
    }
}

/// Tokens joined with single spaces; no tokens join to the empty string.
pub open spec fn joined(parts: Seq<Seq<char>>) -> Seq<char>
    decreases parts.len(),
{
    if parts.len() == 0 {
        Seq::empty()
    } else if parts.len() == 1 {
        parts[0]
    } else {
        joined(parts.drop_last()) + seq![' '] + parts.last()
    }
}

/// One of the tokens that ask for the usage text.
pub open spec fn help_option(s: Seq<char>) -> bool {
    s == "-h"@ || s == "--help"@ || s == "--usage"@
}

/// Usage is requested by a help option among the tokens or by the joined
/// positional input reading exactly `help`.
pub open spec fn usage_requested(args: Seq<Seq<char>>) -> bool {
    (exists|i: int| 0 <= i < args.len() && help_option(#[trigger] args[i])) || joined(
        positionals(args),
    ) == "help"@
}

/// Whether two strings hold the same characters.
fn str_eq(a: &str, b: &str) -> (r: bool)
    ensures
        r == (a@ == b@),
{
    let n = a.unicode_len();
    if n != b.unicode_len() {
        return false;
    }
    let mut i: usize = 0;
    while i < n
        invariant
            0 <= i <= n,
            n == a@.len(),
            n == b@.len(),
            forall|j: int| 0 <= j < i ==> a@[j] == b@[j],
        decreases n - i,
    {
        if a.get_char(i) as u32 != b.get_char(i) as u32 {
            return false;
        }
        i = i + 1;
    }
    proof {
        assert(a@ =~= b@);
    }
    true
}

fn is_option_token_exec(a: &str) -> (r: bool)
    ensures
        r == is_option_token(a@),
{
    a.unicode_len() > 0 && a.get_char(0) as u32 == 45
}

/// Classifies the argument tokens (the program name excluded): whether
/// usage text was requested, and the candidate string the parser chain
/// should read, which is empty when no positional token was given.
pub fn classify(args: &Vec<String>) -> (r: (bool, String))
    ensures
        r.0 == usage_requested(args.deep_view()),
        r.1@ == joined(positionals(args.deep_view())),
{
    let ghost av = args.deep_view();
    let mut usage = false;
    let mut cand = String::new();
    let mut npos: usize = 0;
    let mut i: usize = 0;
    while i < args.len()
        invariant
            0 <= i <= args.len(),
            av == args.deep_view(),
            av.len() == args@.len(),
            usage == (exists|k: int| 0 <= k < i && help_option(#[trigger] av[k])),
            npos <= i,
            npos == positionals(av.take(i as int)).len(),
            cand@ == joined(positionals(av.take(i as int))),
        decreases args.len() - i,
    {
        let a = &args[i];
        proof {
            assert(av[i as int] == args@[i as int]@);
            assert(av.take(i + 1).drop_last() =~= av.take(i as int));
            assert(av.take(i + 1).last() == av[i as int]);
        }
        if str_eq(a.as_str(), "-h") || str_eq(a.as_str(), "--help") || str_eq(
            a.as_str(),
            "--usage",
        ) {
            usage = true;
        }
        if !is_option_token_exec(a.as_str()) {
            let ghost before = positionals(av.take(i as int));
            proof {
                assert(before.push(av[i as int]).drop_last() =~= before);
                assert(before.push(av[i as int]).last() == av[i as int]);
                reveal_strlit(" ");
                assert(" "@ =~= seq![' ']);
            }
            if npos > 0 {
                cand.append(" ");
            }
            cand.append(a.as_str());
            npos = npos + 1;
        }
        i = i + 1;
    }
    proof {
        assert(av.take(av.len() as int) =~= av);
    }
    let help_alone = str_eq(cand.as_str(), "help");
    (usage || help_alone, cand)
}

} // verus!
