//! The usage renderer: a pure, deterministic function of the parser's
//! declaration, rendered flags first, then arguments, in declaration order.

use vstd::prelude::*;
use vstd::string::StringExecFns;
use crate::model::ArgumentView;
use crate::model::FlagView;
use crate::model::Parser;
use crate::model::ParserView;

verus! {

/// The rendered option-slot labels of one flag: `<label> ` for each slot, in
/// declaration order.
pub open spec fn slot_list(opts: Seq<Seq<char>>) -> Seq<char>
    decreases opts.len(),
{
    if opts.len() == 0 {
        Seq::empty()
    } else {
        slot_list(opts.drop_last()) + "<"@ + opts.last() + "> "@
    }
}

/// The rendered line of one flag.
pub open spec fn flag_line(f: FlagView) -> Seq<char> {
    "    -"@ + f.title + " "@ + slot_list(f.options) + ":\n\t "@ + f.description + "\n"@
}

/// The rendered lines of the declared flags, in declaration order.
pub open spec fn flag_lines(fs: Seq<FlagView>) -> Seq<char>
    decreases fs.len(),
{
    if fs.len() == 0 {
        Seq::empty()
    } else {
        flag_lines(fs.drop_last()) + flag_line(fs.last())
    }
}

/// The options block: present only when at least one flag is declared.
pub open spec fn options_block(fs: Seq<FlagView>) -> Seq<char> {
    if fs.len() == 0 {
        Seq::empty()
    } else {
        " Options:\n"@ + flag_lines(fs) + "\n"@
    }
}

/// The rendered line of one positional argument.
pub open spec fn arg_line(a: ArgumentView) -> Seq<char> {
    "    "@ + a.title + " :\n\t "@ + a.description + "\n"@
}

/// The rendered lines of the declared arguments, in declaration order.
pub open spec fn arg_lines(args: Seq<ArgumentView>) -> Seq<char>
    decreases args.len(),
{
    if args.len() == 0 {
        Seq::empty()
    } else {
        arg_lines(args.drop_last()) + arg_line(args.last())
    }
}

/// The arguments block: present only when at least one argument is declared.
pub open spec fn arguments_block(args: Seq<ArgumentView>) -> Seq<char> {
    if args.len() == 0 {
        Seq::empty()
    } else {
        " Arguments:\n"@ + arg_lines(args)
    }
}

/// The full usage text: banner, options block, arguments block.
pub open spec fn spec_usage(p: ParserView) -> Seq<char> {
    p.title + ", "@ + p.description + "\nUsage: -h for help:\n\n"@ + options_block(p.flags)
        + arguments_block(p.arguments)
}

impl Parser {
    /// Renders the usage text for this parser.  The result is a function of
    /// the declaration alone, so repeated calls return identical text.
    #[verifier::loop_isolation(false)]
    pub fn help(&self) -> (r: String)
        ensures
            r@ == spec_usage(self@),
    {
        let ghost fvs = self@.flags;
        let ghost avs = self@.arguments;

        let mut flag_str = String::new();
        if self.flags.len() > 0 {
            flag_str.append(" Options:\n");
            let mut i: usize = 0;
            while i < self.flags.len()
                invariant
                    i <= self.flags.len(),
                    flag_str@ == " Options:\n"@ + flag_lines(fvs.take(i as int)),
                decreases self.flags.len() - i,
            {
                let f = &self.flags[i];
                let mut line = String::new();
                line.append("    -");
                line.append(f.title.as_str());
                line.append(" ");
                let mut k: usize = 0;
                while k < f.options.len()
                    invariant
                        k <= f.options.len(),
                        line@ == "    -"@ + f@.title + " "@ + slot_list(
                            f@.options.take(k as int),
                        ),
                    decreases f.options.len() - k,
                {
                    line.append("<");
                    line.append(f.options[k].as_str());
                    line.append("> ");
                    proof {
                        assert(f@.options.take(k + 1 as int).drop_last() =~= f@.options.take(
                            k as int,
                        ));
                        assert(f@.options.take(k + 1 as int).last() == f@.options[k as int]);
                    }
                    k += 1;
                }
                line.append(":\n\t ");
                line.append(f.description.as_str());
                line.append("\n");
                proof {
                    assert(f@.options.take(f.options@.len() as int) =~= f@.options);
                    assert(line@ =~= flag_line(f@));
                }
                flag_str.append(line.as_str());
                proof {
                    assert(fvs.take(i + 1 as int).drop_last() =~= fvs.take(i as int));
                    assert(fvs.take(i + 1 as int).last() == fvs[i as int]);
                    assert(flag_str@ =~= " Options:\n"@ + flag_lines(fvs.take(i + 1 as int)));
                }
                i += 1;
            }
            flag_str.append("\n");
            proof {
                assert(fvs.take(fvs.len() as int) =~= fvs);
                assert(flag_str@ =~= options_block(fvs));
            }
        }

        let mut args_str = String::new();
        if self.arguments.len() > 0 {
            args_str.append(" Arguments:\n");
            let mut i: usize = 0;
            while i < self.arguments.len()
                invariant
                    i <= self.arguments.len(),
                    args_str@ == " Arguments:\n"@ + arg_lines(avs.take(i as int)),
                decreases self.arguments.len() - i,
            {
                let a = &self.arguments[i];
                let mut line = String::new();
                line.append("    ");
                line.append(a.title.as_str());
                line.append(" :\n\t ");
                line.append(a.description.as_str());
                line.append("\n");
                proof {
                    assert(line@ =~= arg_line(a@));
                }
                args_str.append(line.as_str());
                proof {
                    assert(avs.take(i + 1 as int).drop_last() =~= avs.take(i as int));
                    assert(avs.take(i + 1 as int).last() == avs[i as int]);
                    assert(args_str@ =~= " Arguments:\n"@ + arg_lines(avs.take(i + 1 as int)));
                }
                i += 1;
            }
            proof {
                assert(avs.take(avs.len() as int) =~= avs);
                assert(args_str@ =~= arguments_block(avs));
            }
        }

        let mut out = String::new();
        out.append(self.project_title.as_str());
        out.append(", ");
        out.append(self.project_description.as_str());
        out.append("\nUsage: -h for help:\n\n");
        out.append(flag_str.as_str());
        out.append(args_str.as_str());
        proof {
            assert(out@ =~= spec_usage(self@));
        }
        out
    }
}

} // verus!
