//! Parsing the command line of the client.
//!
//! The client runs in one of two modes.  When the first argument is
//! `az`, everything after it is handed back verbatim for the caller to
//! run as an external command.  Otherwise the arguments form a prompt:
//! a credential can be given as `-k KEY`, `--key KEY` or `--key=KEY`
//! (the last occurrence wins), and the remaining arguments, joined with
//! single spaces, are the prompt.  A key flag with no value following it
//! is an error.

use vstd::prelude::*;
use vstd::string::StrSliceExecFns;

verus! {

/// The character sequences of a list of strings, in order.
pub open spec fn strings_view(v: Seq<String>) -> Seq<Seq<char>> {
    Seq::new(v.len(), |k: int| v[k]@)
}

/// The character sequence of an optional string.
pub open spec fn opt_string_view(v: Option<String>) -> Option<Seq<char>> {
    match v {
        Some(s) => Some(s@),
        None => None,
    }
}

/// True when the argument selects the external-command mode.
pub open spec fn is_az_arg(a: Seq<char>) -> bool {
    a == seq!['a', 'z']
}

/// True when the argument is a key flag expecting a value after it.
pub open spec fn is_key_flag(a: Seq<char>) -> bool {
    a == seq!['-', 'k'] || a == seq!['-', '-', 'k', 'e', 'y']
}

/// True when the argument carries its key value inline, `--key=VALUE`.
pub open spec fn is_inline_key(a: Seq<char>) -> bool {
    a.len() >= 6 && a.take(6) == seq!['-', '-', 'k', 'e', 'y', '=']
}

/// The arguments joined with single spaces.
pub open spec fn join_spaces(parts: Seq<Seq<char>>) -> Seq<char>
    decreases parts.len(),
{
    if parts.len() == 0 {
        Seq::empty()
    } else if parts.len() == 1 {
        parts[0]
    } else {
        join_spaces(parts.drop_last()) + seq![' '] + parts.last()
    }
}

/// One pass over the arguments from index `i`: the key seen so far, the
/// non-flag arguments kept so far, and either the final pair or the
/// error message for a key flag without a value.
pub open spec fn scan_args(
    args: Seq<Seq<char>>,
    i: int,
    key: Option<Seq<char>>,
    kept: Seq<Seq<char>>,
) -> Result<(Option<Seq<char>>, Seq<Seq<char>>), Seq<char>>
    decreases args.len() - i,
{
    if !(0 <= i && i < args.len()) {
        Ok((key, kept))
    } else {
        let a = args[i];
        if is_key_flag(a) {
            if i + 1 < args.len() {
                scan_args(args, i + 2, Some(args[i + 1]), kept)
            } else {
                Err("Missing value for "@ + a)
            }
        } else if is_inline_key(a) {
            scan_args(args, i + 1, Some(a.skip(6)), kept)
        } else {
            scan_args(args, i + 1, key, kept.push(a))
        }
    }
}

/// What a full argument list means: the external-command mode, or a
/// credential, a prompt made of the remaining arguments, and no external
/// command — or the error for a key flag without a value.
pub open spec fn parsed_args(args: Seq<Seq<char>>) -> Result<
    (Option<Seq<char>>, Option<Seq<char>>, Option<Seq<Seq<char>>>),
    Seq<char>,
> {
    if args.len() > 0 && is_az_arg(args[0]) {
        Ok((None, None, Some(args.drop_first())))
    } else {
        match scan_args(args, 0, None, Seq::empty()) {
            Err(m) => Err(m),
            Ok((key, kept)) => Ok(
                (
                    key,
                    if kept.len() > 0 {
                        Some(join_spaces(kept))
                    } else {
                        None
                    },
                    None,
                ),
            ),
        }
    }
}

/// Decides whether `a` reads `az`.
fn arg_is_az(a: &String) -> (r: bool)
    ensures
        r == is_az_arg(a@),
{
    let s = a.as_str();
    let n = s.unicode_len();
    let r = n == 2 && s.get_char(0) == 'a' && s.get_char(1) == 'z';
    proof {
        if r {
            assert(a@ =~= seq!['a', 'z']);
        }
    }
    r
}

/// Decides whether `a` reads `-k` or `--key`.
fn arg_is_key_flag(a: &String) -> (r: bool)
    ensures
        r == is_key_flag(a@),
{
    let s = a.as_str();
    let n = s.unicode_len();
    let short = n == 2 && s.get_char(0) == '-' && s.get_char(1) == 'k';
    let long = n == 5 && s.get_char(0) == '-' && s.get_char(1) == '-' && s.get_char(2) == 'k'
        && s.get_char(3) == 'e' && s.get_char(4) == 'y';
    proof {
        if short {
            assert(a@ =~= seq!['-', 'k']);
        }
        if long {
            assert(a@ =~= seq!['-', '-', 'k', 'e', 'y']);
        }
        if !short && a@ == seq!['-', 'k'] {
            assert(false);
        }
        if !long && a@ == seq!['-', '-', 'k', 'e', 'y'] {
            assert(false);
        }
    }
    short || long
}

/// Reads the value of an inline `--key=VALUE` argument, when `a` is one.
fn arg_inline_key(a: &String) -> (r: Option<String>)
    ensures
        match r {
            Some(v) => is_inline_key(a@) && v@ == a@.skip(6),
            None => !is_inline_key(a@),
        },
{
    let s = a.as_str();
    let n = s.unicode_len();
    if n >= 6 && s.get_char(0) == '-' && s.get_char(1) == '-' && s.get_char(2) == 'k'
        && s.get_char(3) == 'e' && s.get_char(4) == 'y' && s.get_char(5) == '=' {
        proof {
            assert(a@.take(6) =~= seq!['-', '-', 'k', 'e', 'y', '=']);
        }
        Some(s.substring_char(6, n).to_owned())
    } else {
        proof {
            if a@.len() >= 6 && a@.take(6) == seq!['-', '-', 'k', 'e', 'y', '='] {
                assert(a@[0] == a@.take(6)[0]);
                assert(a@[1] == a@.take(6)[1]);
                assert(a@[2] == a@.take(6)[2]);
                assert(a@[3] == a@.take(6)[3]);
                assert(a@[4] == a@.take(6)[4]);
                assert(a@[5] == a@.take(6)[5]);
            }
        }
        None
    }
}

/// Joins the kept arguments with single spaces.
fn join_with_spaces(parts: &Vec<String>) -> (r: String)
    ensures
        r@ == join_spaces(strings_view(parts@)),
{
    let ghost pv = strings_view(parts@);
    let mut out = String::new();
    let n = parts.len();
    let mut i: usize = 0;
    proof {
        assert(out@ =~= join_spaces(pv.take(0)));
    }
    while i < n
        invariant
            i <= n == parts@.len(),
            pv == strings_view(parts@),
            out@ == join_spaces(pv.take(i as int)),
        decreases n - i,
    {
        if i > 0 {
            out.append(" ");
            proof {
                reveal_strlit(" ");
                assert(" "@ =~= seq![' ']);
            }
        }
        out.append(parts[i].as_str());
        proof {
            assert(pv.take(i as int + 1).drop_last() =~= pv.take(i as int));
            assert(pv.take(i as int + 1).last() == pv[i as int]);
        }
        i = i + 1;
    }
    proof {
        assert(pv.take(n as int) =~= pv);
    }
    out
}

/// Parses the client's arguments (the program name already removed):
/// either everything after a leading `az` as an external command, or an
/// optional `-k`/`--key`/`--key=` credential and the remaining arguments
/// joined into a prompt.  A key flag with nothing after it is an error.
pub fn parse_args(args: Vec<String>) -> (r: Result<
    (Option<String>, Option<String>, Option<Vec<String>>),
    String,
>)
    ensures
        match (r, parsed_args(strings_view(args@))) {
            (Ok((key, prompt, az)), Ok(sp)) => opt_string_view(key) == sp.0 && opt_string_view(
                prompt,
            ) == sp.1 && match (az, sp.2) {
                (Some(v), Some(sv)) => strings_view(v@) == sv,
                (None, None) => true,
                _ => false,
            },
            (Err(m), Err(sm)) => m@ == sm,
            _ => false,
        },
{
    let ghost av = strings_view(args@);
    proof {
        assert(av.len() == args@.len());
    }
    let n = args.len();
    if n > 0 && arg_is_az(&args[0]) {
        let mut rest: Vec<String> = Vec::new();
        let mut j: usize = 1;
        proof {
            assert(strings_view(rest@) =~= av.subrange(1, 1));
        }
        while j < n
            invariant
                1 <= j <= n == args@.len(),
                av == strings_view(args@),
                strings_view(rest@) == av.subrange(1, j as int),
            decreases n - j,
        {
            let ghost rest0 = rest@;
            rest.push(args[j].clone());
            proof {
                assert(strings_view(rest0).len() == rest0.len());
                assert(av.subrange(1, j as int).len() == j - 1);
                assert(strings_view(rest@).len() == rest@.len());
                assert forall|k: int| 0 <= k < rest@.len() implies strings_view(rest@)[k]
                    == av.subrange(1, j as int + 1)[k] by {
                    assert(strings_view(rest@)[k] == rest@[k]@);
                    if k < rest0.len() {
                        assert(rest@[k] == rest0[k]);
                        assert(strings_view(rest0)[k] == av.subrange(1, j as int)[k]);
                    } else {
                        assert(rest@[k] == args@[j as int]);
                        assert(av[j as int] == args@[j as int]@);
                    }
                }
                assert(strings_view(rest@) =~= av.subrange(1, j as int + 1));
            }
            j = j + 1;
        }
        proof {
            assert(av.subrange(1, n as int) =~= av.drop_first());
        }
        return Ok((None, None, Some(rest)));
    }
    proof {
        if n > 0 {
            assert(av[0] == args@[0]@);
        }
    }
    let mut key: Option<String> = None;
    let mut kept: Vec<String> = Vec::new();
    let mut i: usize = 0;
    proof {
        assert(strings_view(kept@) =~= Seq::<Seq<char>>::empty());
    }
    while i < n
        invariant
            i <= n == args@.len(),
            av == strings_view(args@),
            !(av.len() > 0 && is_az_arg(av[0])),
            scan_args(av, 0, None, Seq::empty()) == scan_args(
                av,
                i as int,
                opt_string_view(key),
                strings_view(kept@),
            ),
        decreases n - i,
    {
        proof {
            assert(av[i as int] == args@[i as int]@);
        }
        if arg_is_key_flag(&args[i]) {
            if i + 1 < n {
                proof {
                    assert(av[i as int + 1] == args@[i as int + 1]@);
                }
                key = Some(args[i + 1].clone());
                i = i + 2;
            } else {
                let mut msg = String::new();
                msg.append("Missing value for ");
                msg.append(args[i].as_str());
                proof {
                    assert(msg@ =~= "Missing value for "@ + av[i as int]);
                    assert(scan_args(av, i as int, opt_string_view(key), strings_view(kept@))
                        == Err::<(Option<Seq<char>>, Seq<Seq<char>>), Seq<char>>(
                        "Missing value for "@ + av[i as int],
                    ));
                    assert(parsed_args(av) == Err::<
                        (Option<Seq<char>>, Option<Seq<char>>, Option<Seq<Seq<char>>>),
                        Seq<char>,
                    >("Missing value for "@ + av[i as int]));
                }
                return Err(msg);
            }
        } else {
            match arg_inline_key(&args[i]) {
                Some(v) => {
                    key = Some(v);
                    i = i + 1;
                },
                None => {
                    let ghost kept0 = kept@;
                    kept.push(args[i].clone());
                    proof {
                        assert(strings_view(kept0).len() == kept0.len());
                        assert(strings_view(kept@).len() == kept@.len());
                        assert forall|k: int| 0 <= k < kept@.len() implies strings_view(kept@)[k]
                            == strings_view(kept0).push(av[i as int])[k] by {
                            assert(strings_view(kept@)[k] == kept@[k]@);
                            if k < kept0.len() {
                                assert(kept@[k] == kept0[k]);
                                assert(strings_view(kept0)[k] == kept0[k]@);
                            } else {
                                assert(kept@[k] == args@[i as int]);
                            }
                        }
                        assert(strings_view(kept@) =~= strings_view(kept0).push(av[i as int]));
                    }
                    i = i + 1;
                },
            }
        }
    }
    proof {
        if n > 0 {
            assert(av[0] == args@[0]@);
        }
    }
    let prompt = if kept.len() > 0 {
        Some(join_with_spaces(&kept))
    } else {
        None
    };
    Ok((key, prompt, None))
}

} // verus!
