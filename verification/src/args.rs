//! Classification of command-line tokens into targets. Options are matched
//! case-insensitively; an option missing its value, or an unrecognized
//! token, becomes an explicit no-op entry.

use vstd::prelude::*;
use crate::text::lower;
use crate::text::str_eq_ignore_case;

verus! {

/// One parsed command-line entry: a literal hardware-address target, a name
/// to look up, a request for the usage text, or nothing.
pub enum ProgArg {
    MacTarget(String),
    LookupTarget(String),
    Help,
    NoOp,
}

/// The specification-level shape of a parsed entry.
pub enum ArgShape {
    MacTarget(Seq<char>),
    LookupTarget(Seq<char>),
    Help,
    NoOp,
}

impl View for ProgArg {
    type V = ArgShape;

    open spec fn view(&self) -> ArgShape {
        match self {
            ProgArg::MacTarget(s) => ArgShape::MacTarget(s@),
            ProgArg::LookupTarget(s) => ArgShape::LookupTarget(s@),
            ProgArg::Help => ArgShape::Help,
            ProgArg::NoOp => ArgShape::NoOp,
        }
    }
}

/// The views of a sequence of owned strings.
pub open spec fn string_views(args: Seq<String>) -> Seq<Seq<char>> {
    args.map_values(|s: String| s@)
}

/// The views of a sequence of parsed entries.
pub open spec fn arg_views(args: Seq<ProgArg>) -> Seq<ArgShape> {
    args.map_values(|a: ProgArg| a@)
}

/// How a token list reads as targets: an address or lookup option consumes
/// the following token as its value, and becomes a no-op when that value is
/// missing; a help option stands alone; anything else is a no-op.
pub open spec fn classify_spec(args: Seq<Seq<char>>) -> Seq<ArgShape>
    decreases args.len(),
{
    if args.len() == 0 {
        Seq::empty()
    } else {
        let a = lower(args.first());
        if a == "-m"@ || a == "--mac"@ {
            if args.len() >= 2 {
                seq![ArgShape::MacTarget(args[1])] + classify_spec(args.skip(2))
            } else {
                seq![ArgShape::NoOp]
            }
        } else if a == "-l"@ || a == "--lookup"@ {
            if args.len() >= 2 {
                seq![ArgShape::LookupTarget(args[1])] + classify_spec(args.skip(2))
            } else {
                seq![ArgShape::NoOp]
            }
        } else if a == "-h"@ || a == "--help"@ {
            seq![ArgShape::Help] + classify_spec(args.skip(1))
        } else {
            seq![ArgShape::NoOp] + classify_spec(args.skip(1))
        }
    }
}

/// The option literals hold no upper-case letter, so lower-casing them
/// changes nothing.
proof fn lemma_option_literals_lower()
    ensures
        lower("-m"@) == "-m"@,
        lower("--mac"@) == "--mac"@,
        lower("-l"@) == "-l"@,
        lower("--lookup"@) == "--lookup"@,
        lower("-h"@) == "-h"@,
        lower("--help"@) == "--help"@,
{
    reveal_strlit("-m");
    reveal_strlit("--mac");
    reveal_strlit("-l");
    reveal_strlit("--lookup");
    reveal_strlit("-h");
    reveal_strlit("--help");
    assert(lower("-m"@) =~= "-m"@);
    assert(lower("--mac"@) =~= "--mac"@);
    assert(lower("-l"@) =~= "-l"@);
    assert(lower("--lookup"@) =~= "--lookup"@);
    assert(lower("-h"@) =~= "-h"@);
    assert(lower("--help"@) =~= "--help"@);
}

/// Classifies the command-line tokens, exactly as `classify_spec` describes.
pub fn classify_args(args: &Vec<String>) -> (r: Vec<ProgArg>)
    ensures
        arg_views(r@) == classify_spec(string_views(args@)),
{
    let ghost all = string_views(args@);
    let n = args.len();
    let mut out: Vec<ProgArg> = Vec::new();
    let mut i: usize = 0;
    proof {
        assert(all.skip(0) =~= all);
        assert(arg_views(out@) + classify_spec(all) =~= classify_spec(all));
    }
    while i < n
        invariant
            i <= n,
            n == args@.len(),
            all == string_views(args@),
            classify_spec(all) == arg_views(out@) + classify_spec(all.skip(i as int)),
        decreases n - i,
    {
        let a = &args[i];
        let ghost rest = all.skip(i as int);
        proof {
            lemma_option_literals_lower();
            assert(rest.first() == a@);
        }
        if str_eq_ignore_case(a.as_str(), "-m") || str_eq_ignore_case(a.as_str(), "--mac") {
            if i + 1 < n {
                proof {
                    assert(rest[1] == all[i + 1]);
                    assert(rest.skip(2) =~= all.skip(i + 2));
                }
                out.push(ProgArg::MacTarget(args[i + 1].clone()));
                i = i + 2;
            } else {
                proof {
                    assert(all.skip(i + 1) =~= Seq::<Seq<char>>::empty());
                }
                out.push(ProgArg::NoOp);
                i = i + 1;
            }
        } else if str_eq_ignore_case(a.as_str(), "-l") || str_eq_ignore_case(a.as_str(), "--lookup") {
            if i + 1 < n {
                proof {
                    assert(rest[1] == all[i + 1]);
                    assert(rest.skip(2) =~= all.skip(i + 2));
                }
                out.push(ProgArg::LookupTarget(args[i + 1].clone()));
                i = i + 2;
            } else {
                proof {
                    assert(all.skip(i + 1) =~= Seq::<Seq<char>>::empty());
                }
                out.push(ProgArg::NoOp);
                i = i + 1;
            }
        } else if str_eq_ignore_case(a.as_str(), "-h") || str_eq_ignore_case(a.as_str(), "--help") {
            proof {
                assert(rest.skip(1) =~= all.skip(i + 1));
            }
            out.push(ProgArg::Help);
            i = i + 1;
        } else {
            proof {
                assert(rest.skip(1) =~= all.skip(i + 1));
            }
            out.push(ProgArg::NoOp);
            i = i + 1;
        }
        proof {
            assert(arg_views(out@) + classify_spec(all.skip(i as int)) =~= classify_spec(all));
        }
    }
    proof {
        assert(all.skip(n as int) =~= Seq::<Seq<char>>::empty());
        assert(arg_views(out@) =~= classify_spec(all));
    }
    out
}

} // verus!
