//! The interactive shell's command logic, and the trampoline that turns an
//! argument string into tokens for a fresh task.
//!
//! The shell is one user task among many: it reads a newline-terminated
//! command per iteration and drives a linked list of numbers with `p`,
//! `ih`, `it`, `ph`, `pt`, spawns an echo task for `echo`, and reprints its
//! help text for `help`.  The reading, printing, sleeping and spawning are
//! system calls the surrounding loop performs; the decision what a line
//! means, and the list manipulation itself, live here.

use crate::cstr::dec_value;
use crate::cstr::is_digits;
use crate::cstr::nul_prefix;
use crate::cstr::parse_digits;
use crate::list::LinkedList;
use vstd::prelude::*;

verus! {

/// Split into space-separated tokens, starting at `i` with the partial
/// token `cur` already read.
pub open spec fn split_acc(s: Seq<u8>, i: int, cur: Seq<u8>) -> Seq<Seq<u8>>
    decreases s.len() - i,
{
    if i < 0 || i >= s.len() {
        if cur.len() > 0 {
            seq![cur]
        } else {
            Seq::empty()
        }
    } else if s[i] == 32 {
        if cur.len() > 0 {
            seq![cur] + split_acc(s, i + 1, Seq::empty())
        } else {
            split_acc(s, i + 1, Seq::empty())
        }
    } else {
        split_acc(s, i + 1, cur.push(s[i]))
    }
}

/// The space-separated tokens of `s`, empty ones skipped.
pub open spec fn tokens_of(s: Seq<u8>) -> Seq<Seq<u8>> {
    split_acc(s, 0, Seq::empty())
}

/// The deep view of a vector of byte vectors.
pub open spec fn deep(toks: Seq<Vec<u8>>) -> Seq<Seq<u8>> {
    toks.map_values(|t: Vec<u8>| t@)
}

/// Appending one vector appends its view to the deep view.
proof fn lemma_deep_push(toks: Seq<Vec<u8>>, t: Vec<u8>)
    ensures
        deep(toks.push(t)) == deep(toks).push(t@),
{
    assert(deep(toks.push(t)) =~= deep(toks).push(t@));
}

/// Split a byte string into its space-separated tokens.
pub fn tokenize(s: &[u8]) -> (toks: Vec<Vec<u8>>)
    ensures
        deep(toks@) == tokens_of(s@),
{
    let mut toks: Vec<Vec<u8>> = Vec::new();
    let mut cur: Vec<u8> = Vec::new();
    let mut i: usize = 0;
    while i < s.len()
        invariant
            i <= s@.len(),
            tokens_of(s@) == deep(toks@) + split_acc(s@, i as int, cur@),
        decreases s@.len() - i,
    {
        let c = s[i];
        let ghost cur0 = cur@;
        let ghost toks0 = toks@;
        if c == 32 {
            if cur.len() > 0 {
                let done = cur;
                cur = Vec::new();
                toks.push(done);
                proof {
                    lemma_deep_push(toks0, done);
                    assert(split_acc(s@, i as int, cur0) == seq![cur0] + split_acc(
                        s@,
                        i + 1,
                        Seq::empty(),
                    ));
                    assert(deep(toks0) + split_acc(s@, i as int, cur0) =~= deep(toks@) + split_acc(
                        s@,
                        i + 1,
                        Seq::empty(),
                    ));
                }
            } else {
                proof {
                    assert(cur0 =~= Seq::<u8>::empty());
                    assert(split_acc(s@, i as int, cur0) == split_acc(s@, i + 1, Seq::empty()));
                }
            }
        } else {
            cur.push(c);
            proof {
                assert(cur@ == cur0.push(s@[i as int]));
                assert(split_acc(s@, i as int, cur0) == split_acc(s@, i + 1, cur@));
            }
        }
        i += 1;
    }
    let ghost toks0 = toks@;
    let ghost cur0 = cur@;
    if cur.len() > 0 {
        let done = cur;
        toks.push(done);
        proof {
            lemma_deep_push(toks0, done);
            assert(split_acc(s@, s@.len() as int, cur0) == seq![cur0]);
            assert(deep(toks0) + seq![cur0] =~= deep(toks@));
        }
    } else {
        proof {
            assert(split_acc(s@, s@.len() as int, cur0) =~= Seq::<Seq<u8>>::empty());
            assert(deep(toks@) + Seq::<Seq<u8>>::empty() =~= deep(toks@));
        }
    }
    toks
}

/// At most five tokens are handed to a fresh task.
pub const MAX_ARGS: usize = 5;

/// The argument vector a fresh task starts with: the tokens of its
/// NUL-terminated argument string, at most [`MAX_ARGS`] of them.
pub open spec fn spec_args(args: Seq<u8>) -> Seq<Seq<u8>> {
    let toks = tokens_of(nul_prefix(args));
    if toks.len() <= MAX_ARGS {
        toks
    } else {
        toks.take(MAX_ARGS as int)
    }
}

/// The trampoline every task starts in: turn the argument bytes into the
/// argument vector for the entry function.  The surrounding loop calls the
/// entry function with these tokens and retires the task when it returns.
pub fn task_start(args: &[u8]) -> (argv: Vec<Vec<u8>>)
    ensures
        deep(argv@) == spec_args(args@),
{
    let trimmed = crate::cstr::cstr_to_str(args);
    let toks = tokenize(trimmed.as_slice());
    let mut argv: Vec<Vec<u8>> = Vec::new();
    let mut i: usize = 0;
    let ghost all = deep(toks@);
    while i < toks.len() && i < MAX_ARGS
        invariant
            i <= toks@.len(),
            i <= MAX_ARGS,
            all == deep(toks@),
            deep(argv@) == all.take(i as int),
        decreases toks@.len() - i,
    {
        let t = toks[i].clone();
        proof {
            assert(t@ == toks@[i as int]@);
        }
        let ghost argv0 = argv@;
        argv.push(t);
        proof {
            lemma_deep_push(argv0, t);
            assert(deep(argv@) =~= all.take(i + 1));
        }
        i += 1;
    }
    proof {
        if toks@.len() <= MAX_ARGS {
            assert(all.take(i as int) =~= all);
        }
    }
    argv
}

/// Print the first argument after the program name, as `echo` does.
pub fn echo(argv: &Vec<Vec<u8>>, out: &mut Vec<u8>)
    ensures
        argv@.len() >= 2 ==> final(out)@ == old(out)@ + argv@[1]@.push(10),
        argv@.len() < 2 ==> final(out)@ == old(out)@,
{
    if argv.len() >= 2 {
        crate::uart::print_string(out, argv[1].as_slice());
        out.push(10);
        proof {
            assert(old(out)@ + argv@[1]@.push(10) =~= (old(out)@ + argv@[1]@).push(10));
        }
    }
}

/// What a signed decimal token denotes, when it fits an `i32`: an optional
/// leading sign, then digits.
pub open spec fn parse_i32_spec(tok: Seq<u8>) -> Option<i32> {
    let neg = tok.len() > 0 && tok[0] == 45;
    let signed = tok.len() > 0 && (tok[0] == 45 || tok[0] == 43);
    let d = if signed {
        tok.skip(1)
    } else {
        tok
    };
    if d.len() > 0 && is_digits(d) && (if neg {
        dec_value(d) <= 0x8000_0000
    } else {
        dec_value(d) <= 0x7fff_ffff
    }) {
        if neg {
            Some((-(dec_value(d) as int)) as i32)
        } else {
            Some(dec_value(d) as i32)
        }
    } else {
        None
    }
}

/// Parse a signed decimal token.
fn parse_i32(tok: &[u8]) -> (r: Option<i32>)
    ensures
        r == parse_i32_spec(tok@),
{
    let neg = tok.len() > 0 && tok[0] == 45;
    let signed = tok.len() > 0 && (tok[0] == 45 || tok[0] == 43);
    let from: usize = if signed {
        1
    } else {
        0
    };
    proof {
        if !signed {
            assert(tok@.skip(0) =~= tok@);
        }
    }
    match parse_digits(tok, from) {
        Ok(v) => {
            if neg {
                if v <= 0x8000_0000 {
                    proof {
                        assert((-(v as int)) as i32 == -(v as int)) by {
                            assert(-(v as int) >= i32::MIN);
                        }
                    }
                    Some((-(v as i64)) as i32)
                } else {
                    None
                }
            } else {
                if v <= 0x7fff_ffff {
                    Some(v as i32)
                } else {
                    None
                }
            }
        },
        Err(_) => None,
    }
}

/// What the shell answers to one command line; the surrounding loop turns
/// the reply into text and, for `Spawn`, creates the echo task and waits
/// for it.
#[derive(PartialEq, Eq, Debug)]
pub enum ShellReply {
    /// All values of the list, front to back (`p`).
    Listed(Vec<i32>),
    /// The value inserted at the head (`ih`).
    PushedFront(i32),
    /// The value inserted at the tail (`it`).
    PushedBack(i32),
    /// The argument of `ih` is not a number.
    BadFrontValue,
    /// The argument of `it` is not a number.
    BadBackValue,
    /// The value removed from the head (`ph`).
    PoppedFront(i32),
    /// The value removed from the tail (`pt`).
    PoppedBack(i32),
    /// `ph` on an empty list.
    FrontEmpty,
    /// `pt` on an empty list.
    BackEmpty,
    /// Reprint the command summary.
    Help,
    /// Spawn the echo task on this line and wait for it.
    Spawn,
    /// Anything else.
    Unknown,
}

pub open spec fn cmd_p() -> Seq<u8> {
    seq![112u8]
}

pub open spec fn cmd_ih() -> Seq<u8> {
    seq![105u8, 104u8]
}

pub open spec fn cmd_it() -> Seq<u8> {
    seq![105u8, 116u8]
}

pub open spec fn cmd_ph() -> Seq<u8> {
    seq![112u8, 104u8]
}

pub open spec fn cmd_pt() -> Seq<u8> {
    seq![112u8, 116u8]
}

pub open spec fn cmd_help() -> Seq<u8> {
    seq![104u8, 101u8, 108u8, 112u8]
}

pub open spec fn cmd_echo() -> Seq<u8> {
    seq![101u8, 99u8, 104u8, 111u8]
}

/// The argument token of `ih`/`it`, or nothing.
pub open spec fn arg_value(toks: Seq<Seq<u8>>) -> Option<i32> {
    if toks.len() >= 2 {
        parse_i32_spec(toks[1])
    } else {
        None
    }
}

/// Run one command line against the shell's list.  The line is the raw,
/// NUL-terminated buffer a read delivered; its first token selects the
/// command, the second carries the value for the insert commands.
pub fn shell(line: &[u8], list: &mut LinkedList<i32>) -> (r: ShellReply)
    requires
        old(list).wf(),
    ensures
        final(list).wf(),
        ({
            let toks = tokens_of(nul_prefix(line@));
            let cmd = if toks.len() == 0 {
                Seq::<u8>::empty()
            } else {
                toks[0]
            };
            if cmd == cmd_p() {
                &&& *final(list) == *old(list)
                &&& r matches ShellReply::Listed(v) && v@ == old(list).view()
            } else if cmd == cmd_ih() {
                match arg_value(toks) {
                    Some(v) => final(list).view() == seq![v] + old(list).view() && r
                        == ShellReply::PushedFront(v),
                    None => *final(list) == *old(list) && r == ShellReply::BadFrontValue,
                }
            } else if cmd == cmd_it() {
                match arg_value(toks) {
                    Some(v) => final(list).view() == old(list).view().push(v) && r
                        == ShellReply::PushedBack(v),
                    None => *final(list) == *old(list) && r == ShellReply::BadBackValue,
                }
            } else if cmd == cmd_ph() {
                if old(list).view().len() > 0 {
                    final(list).view() == old(list).view().skip(1) && r == ShellReply::PoppedFront(
                        old(list).view()[0],
                    )
                } else {
                    *final(list) == *old(list) && r == ShellReply::FrontEmpty
                }
            } else if cmd == cmd_pt() {
                if old(list).view().len() > 0 {
                    final(list).view() == old(list).view().drop_last() && r
                        == ShellReply::PoppedBack(old(list).view().last())
                } else {
                    *final(list) == *old(list) && r == ShellReply::BackEmpty
                }
            } else if cmd == cmd_help() {
                *final(list) == *old(list) && r == ShellReply::Help
            } else if cmd == cmd_echo() {
                *final(list) == *old(list) && r == ShellReply::Spawn
            } else {
                *final(list) == *old(list) && r == ShellReply::Unknown
            }
        }),
{
    let trimmed = crate::cstr::cstr_to_str(line);
    let toks = tokenize(trimmed.as_slice());
    let ghost toks_spec = tokens_of(nul_prefix(line@));
    if toks.len() == 0 {
        return ShellReply::Unknown;
    }
    let cmd = &toks[0];
    proof {
        assert(cmd@ == toks_spec[0]);
    }
    if cmd.len() == 1 && cmd[0] == 112 {
        proof {
            assert(cmd@ =~= cmd_p());
        }
        let mut values: Vec<i32> = Vec::new();
        let mut it = list.iter();
        loop
            invariant
                list.wf(),
                it.valid_for(list),
                1 <= it.pos(list) <= list.ring().len(),
                list.ring().len() == list.view().len() + 1,
                values@ == list.view().take(it.pos(list) - 1),
            ensures
                values@ == list.view(),
            decreases list.ring().len() - it.pos(list),
        {
            let ghost p = it.pos(list);
            match it.next(list) {
                Some(nid) => {
                    values.push(*list.get(nid));
                    proof {
                        assert(values@ =~= list.view().take(p));
                    }
                },
                None => {
                    proof {
                        assert(values@ =~= list.view());
                    }
                    break ;
                },
            }
        }
        return ShellReply::Listed(values);
    }
    if cmd.len() == 2 && cmd[0] == 105 && cmd[1] == 104 {
        proof {
            assert(cmd@ =~= cmd_ih());
            assert(cmd@ != cmd_p());
        }
        if toks.len() >= 2 {
            match parse_i32(toks[1].as_slice()) {
                Some(v) => {
                    list.push_front(v);
                    return ShellReply::PushedFront(v);
                },
                None => {
                    return ShellReply::BadFrontValue;
                },
            }
        }
        return ShellReply::BadFrontValue;
    }
    if cmd.len() == 2 && cmd[0] == 105 && cmd[1] == 116 {
        proof {
            assert(cmd@ =~= cmd_it());
            assert(cmd@ != cmd_p() && cmd@ != cmd_ih());
        }
        if toks.len() >= 2 {
            match parse_i32(toks[1].as_slice()) {
                Some(v) => {
                    list.push_back(v);
                    return ShellReply::PushedBack(v);
                },
                None => {
                    return ShellReply::BadBackValue;
                },
            }
        }
        return ShellReply::BadBackValue;
    }
    if cmd.len() == 2 && cmd[0] == 112 && cmd[1] == 104 {
        proof {
            assert(cmd@ =~= cmd_ph());
            assert(cmd@ != cmd_p() && cmd@ != cmd_ih() && cmd@ != cmd_it());
        }
        match list.pop_front() {
            Some(v) => {
                return ShellReply::PoppedFront(v);
            },
            None => {
                return ShellReply::FrontEmpty;
            },
        }
    }
    if cmd.len() == 2 && cmd[0] == 112 && cmd[1] == 116 {
        proof {
            assert(cmd@ =~= cmd_pt());
            assert(cmd@ != cmd_p() && cmd@ != cmd_ih() && cmd@ != cmd_it() && cmd@ != cmd_ph());
        }
        match list.pop_back() {
            Some(v) => {
                return ShellReply::PoppedBack(v);
            },
            None => {
                return ShellReply::BackEmpty;
            },
        }
    }
    if cmd.len() == 4 && cmd[0] == 104 && cmd[1] == 101 && cmd[2] == 108 && cmd[3] == 112 {
        proof {
            assert(cmd@ =~= cmd_help());
        }
        return ShellReply::Help;
    }
    if cmd.len() == 4 && cmd[0] == 101 && cmd[1] == 99 && cmd[2] == 104 && cmd[3] == 111 {
        proof {
            assert(cmd@ =~= cmd_echo());
        }
        return ShellReply::Spawn;
    }
    proof {
        assert(cmd@ != cmd_p() && cmd@ != cmd_ih() && cmd@ != cmd_it() && cmd@ != cmd_ph() && cmd@
            != cmd_pt() && cmd@ != cmd_help() && cmd@ != cmd_echo());
    }
    ShellReply::Unknown
}

} // verus!
