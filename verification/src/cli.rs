//! The command-line surface: a plan file option and a dry-run flag.
//!
//! The accepted arguments, after the program name, are `--dry-run`, and
//! `-f <path>` or `--file <path>` naming the plan file; anything else is
//! rejected.  The front-end may parse richer spellings, but this is the
//! surface the library defines.

use vstd::prelude::*;

verus! {

/// The parsed command line: the plan file, if one was named, and whether the
/// run is a dry run.
#[derive(Debug)]
pub struct Cli {
    pub file: Option<String>,
    pub dry_run: bool,
}

/// The contents of an optional string.
pub open spec fn opt_view(o: Option<String>) -> Option<Seq<char>> {
    match o {
        Some(s) => Some(s@),
        None => None,
    }
}

/// What the arguments after the program name mean, given what was already
/// gathered: the file named last wins, and an option missing its value or an
/// unknown argument means rejection.
pub open spec fn cli_args_spec(
    rest: Seq<Seq<char>>,
    file: Option<Seq<char>>,
    dry_run: bool,
) -> Option<(Option<Seq<char>>, bool)>
    decreases rest.len(),
{
    if rest.len() == 0 {
        Some((file, dry_run))
    } else if rest[0] == "--dry-run"@ {
        cli_args_spec(rest.drop_first(), file, true)
    } else if rest[0] == "-f"@ || rest[0] == "--file"@ {
        if rest.len() >= 2 {
            cli_args_spec(rest.skip(2), Some(rest[1]), dry_run)
        } else {
            None
        }
    } else {
        None
    }
}

/// What a full argument list means: the first argument is the program name.
pub open spec fn cli_parse_spec(args: Seq<Seq<char>>) -> Option<(Option<Seq<char>>, bool)> {
    if args.len() == 0 {
        None
    } else {
        cli_args_spec(args.drop_first(), None, false)
    }
}

impl Cli {
    /// Parses a full argument list, the program name first: `Ok` exactly on
    /// the argument lists the surface accepts, with the file and flag they
    /// name.
    pub fn parse_from(args: Vec<String>) -> (r: Result<Cli, String>)
        ensures
            match r {
                Ok(cli) => cli_parse_spec(args.deep_view()) == Some(
                    (opt_view(cli.file), cli.dry_run),
                ),
                Err(_) => cli_parse_spec(args.deep_view()) is None,
            },
    {
        let ghost dv = args.deep_view();
        proof {
            assert(dv.len() == args@.len());
            assert(forall|j: int| 0 <= j < dv.len() ==> dv[j] == args@[j]@);
        }
        if args.len() == 0 {
            return Err("no program name given".to_owned());
        }
        let dash_dry_run = "--dry-run".to_owned();
        let dash_f = "-f".to_owned();
        let dash_file = "--file".to_owned();
        let n = args.len();
        let mut i: usize = 1;
        let mut file: Option<String> = None;
        let mut dry_run = false;
        proof {
            assert(dv.skip(1) =~= dv.drop_first());
        }
        while i < n
            invariant
                dv == args.deep_view(),
                n == args@.len(),
                n == dv.len(),
                1 <= i <= n,
                dash_dry_run@ == "--dry-run"@,
                dash_f@ == "-f"@,
                dash_file@ == "--file"@,
                forall|j: int| 0 <= j < dv.len() ==> dv[j] == args@[j]@,
                cli_parse_spec(dv) == cli_args_spec(dv.skip(i as int), opt_view(file), dry_run),
            decreases n - i,
        {
            let ghost suf = dv.skip(i as int);
            proof {
                assert(suf[0] == dv[i as int]);
            }
            if args[i].eq(&dash_dry_run) {
                dry_run = true;
                proof {
                    assert(suf.drop_first() =~= dv.skip(i as int + 1));
                }
                i = i + 1;
            } else if args[i].eq(&dash_f) || args[i].eq(&dash_file) {
                if i + 1 < n {
                    proof {
                        assert(suf[1] == dv[i as int + 1]);
                        assert(suf.skip(2) =~= dv.skip(i as int + 2));
                    }
                    file = Some(args[i + 1].clone());
                    i = i + 2;
                } else {
                    proof {
                        assert(suf.len() == 1);
                    }
                    return Err("expected a value after the file option".to_owned());
                }
            } else {
                return Err("unrecognized argument".to_owned());
            }
        }
        proof {
            assert(dv.skip(n as int) =~= Seq::<Seq<char>>::empty());
        }
        Ok(Cli { file, dry_run })
    }
}

} // verus!
