//! How the first parallel tuner launches the target and the benchmark: their
//! paths and arguments, where they listen, and the port each worker gives
//! them.

use vstd::prelude::*;
use crate::text::{
    all_digits, decimal, is_digit, is_ws, lemma_decimal_digits, lemma_decimal_round_trip, parse_decimal, parse_unsigned,
    split_whitespace, split_ws, str_eq, usize_to_string, views, ws_fold,
};

verus! {

/// The target and benchmark programs, their arguments, and how many times a
/// configuration is measured.
pub struct EnergyEval {
    pub target_path: String,
    pub bench_path: String,
    pub target_args: String,
    pub bench_args: String,
    pub num_iter: u8,
}

/// An argument that announces the address.
pub open spec fn is_address_flag(a: Seq<char>) -> bool {
    a == "-l"@ || a == "--address"@ || a == "-h"@ || a == "--host"@ || a == "--server"@
}

/// An argument that announces the port.
pub open spec fn is_port_flag(a: Seq<char>) -> bool {
    a == "-p"@ || a == "--port"@
}

/// The position of the first address flag in `args`.
pub open spec fn first_address_flag(args: Seq<Seq<char>>) -> Option<int>
    decreases args.len(),
{
    if args.len() == 0 {
        None
    } else {
        match first_address_flag(args.drop_last()) {
            Some(i) => Some(i),
            None => if is_address_flag(args.last()) {
                Some(args.len() - 1)
            } else {
                None
            },
        }
    }
}

/// The position of the first port flag in `args`.
pub open spec fn first_port_flag(args: Seq<Seq<char>>) -> Option<int>
    decreases args.len(),
{
    if args.len() == 0 {
        None
    } else {
        match first_port_flag(args.drop_last()) {
            Some(i) => Some(i),
            None => if is_port_flag(args.last()) {
                Some(args.len() - 1)
            } else {
                None
            },
        }
    }
}

/// The arguments name a port (a flag followed by a number that fits in 16
/// bits), and an address flag, where there is one, is followed by a value.
pub open spec fn args_ok(args: Seq<Seq<char>>) -> bool {
    &&& (first_address_flag(args) matches Some(i) ==> i + 1 < args.len())
    &&& first_port_flag(args) matches Some(j) && j + 1 < args.len() && parse_unsigned(
        args[j + 1],
        65535,
    ) is Some
}

/// The address in the arguments: the one after the first address flag, else
/// the local host.
pub open spec fn address_of(args: Seq<Seq<char>>) -> Seq<char> {
    match first_address_flag(args) {
        Some(i) => args[i + 1],
        None => "127.0.0.1"@,
    }
}

/// The port in the arguments: the number after the first port flag.
pub open spec fn port_of(args: Seq<Seq<char>>) -> nat {
    match first_port_flag(args) {
        Some(j) => parse_unsigned(args[j + 1], 65535).unwrap(),
        None => 0,
    }
}

/// The arguments rewritten one by one, each after a space: the argument that
/// follows a port flag becomes `port`; the second component tells whether
/// the last argument was a port flag.
pub open spec fn port_fold(args: Seq<Seq<char>>, port: Seq<char>) -> (Seq<char>, bool)
    decreases args.len(),
{
    if args.len() == 0 {
        (seq![], false)
    } else {
        let (out, gotit) = port_fold(args.drop_last(), port);
        let a = args.last();
        (out + " "@ + (if gotit {
            port
        } else {
            a
        }), is_port_flag(a))
    }
}

fn address_flag(a: &str) -> (r: bool)
    ensures
        r == is_address_flag(a@),
{
    str_eq(a, "-l") || str_eq(a, "--address") || str_eq(a, "-h") || str_eq(a, "--host") || str_eq(
        a,
        "--server",
    )
}

fn port_flag(a: &str) -> (r: bool)
    ensures
        r == is_port_flag(a@),
{
    str_eq(a, "-p") || str_eq(a, "--port")
}

proof fn lemma_first_flags_take(args: Seq<Seq<char>>, k: int)
    requires
        0 <= k < args.len(),
    ensures
        first_address_flag(args.take(k + 1)) == match first_address_flag(args.take(k)) {
            Some(i) => Some(i),
            None => if is_address_flag(args[k]) {
                Some(k)
            } else {
                None
            },
        },
        first_port_flag(args.take(k + 1)) == match first_port_flag(args.take(k)) {
            Some(i) => Some(i),
            None => if is_port_flag(args[k]) {
                Some(k)
            } else {
                None
            },
        },
{
    assert(args.take(k + 1).drop_last() =~= args.take(k));
    assert(args.take(k + 1).last() == args[k]);
}

proof fn lemma_first_flag_bound(args: Seq<Seq<char>>)
    ensures
        first_address_flag(args) matches Some(i) ==> 0 <= i < args.len() && is_address_flag(args[i]),
        first_port_flag(args) matches Some(i) ==> 0 <= i < args.len() && is_port_flag(args[i]),
    decreases args.len(),
{
    if args.len() > 0 {
        lemma_first_flag_bound(args.drop_last());
    }
}

/// The positions of the first address flag and of the first port flag.
fn find_flags(args: &Vec<String>) -> (r: (Option<usize>, Option<usize>))
    ensures
        (match r.0 {
            Some(i) => first_address_flag(views(args@)) == Some(i as int),
            None => first_address_flag(views(args@)) is None,
        }),
        (match r.1 {
            Some(i) => first_port_flag(views(args@)) == Some(i as int),
            None => first_port_flag(views(args@)) is None,
        }),
{
    let ghost vs = views(args@);
    let mut addr: Option<usize> = None;
    let mut port: Option<usize> = None;
    let mut k: usize = 0;
    assert(vs.take(0) =~= Seq::<Seq<char>>::empty());
    while k < args.len()
        invariant
            vs == views(args@),
            k <= args@.len(),
            (match addr {
                Some(i) => first_address_flag(vs.take(k as int)) == Some(i as int),
                None => first_address_flag(vs.take(k as int)) is None,
            }),
            (match port {
                Some(i) => first_port_flag(vs.take(k as int)) == Some(i as int),
                None => first_port_flag(vs.take(k as int)) is None,
            }),
        decreases args@.len() - k,
    {
        proof {
            lemma_first_flags_take(vs, k as int);
        }
        if addr.is_none() && address_flag(args[k].as_str()) {
            addr = Some(k);
        }
        if port.is_none() && port_flag(args[k].as_str()) {
            port = Some(k);
        }
        k = k + 1;
    }
    assert(vs.take(k as int) =~= vs);
    (addr, port)
}

/// Whether `args_str` names a port (and a value after its address flag, if
/// any): the arguments on which `parse_args` gives an answer.
pub fn args_accepted(args_str: &str) -> (r: bool)
    ensures
        r == args_ok(split_ws(args_str@)),
{
    let args = split_whitespace(args_str);
    let (addr, port) = find_flags(&args);
    proof {
        lemma_first_flag_bound(views(args@));
        assert(views(args@).len() == args@.len());
    }
    let n = args.len();
    let addr_ok = match addr {
        Some(i) => i + 1 < n,
        None => true,
    };
    match port {
        Some(j) => {
            if addr_ok && j + 1 < n {
                parse_decimal(args[j + 1].as_str(), 65535).is_some()
            } else {
                false
            }
        },
        None => false,
    }
}

impl EnergyEval {
    /// No programs and no arguments yet; each configuration is measured once.
    pub fn new() -> (r: EnergyEval)
        ensures
            r.target_path@ == Seq::<char>::empty(),
            r.bench_path@ == Seq::<char>::empty(),
            r.target_args@ == Seq::<char>::empty(),
            r.bench_args@ == Seq::<char>::empty(),
            r.num_iter == 1,
    {
        EnergyEval {
            target_path: String::new(),
            bench_path: String::new(),
            target_args: String::new(),
            bench_args: String::new(),
            num_iter: 1,
        }
    }

    /// The address and the port that the arguments `args_str` give: the
    /// value after the first of `-l`, `--address`, `-h`, `--host`,
    /// `--server` (else `127.0.0.1`), and the number after the first of
    /// `-p`, `--port`.
    pub fn parse_args(&self, args_str: String) -> (r: (String, u16))
        requires
            args_ok(split_ws(args_str@)),
        ensures
            r.0@ == address_of(split_ws(args_str@)),
            r.1 == port_of(split_ws(args_str@)),
    {
        let args = split_whitespace(args_str.as_str());
        let (addr, port) = find_flags(&args);
        proof {
            lemma_first_flag_bound(views(args@));
            assert(views(args@).len() == args@.len());
        }
        let n = args.len();
        let address = match addr {
            Some(i) => args[i + 1].clone(),
            None => "127.0.0.1".to_owned(),
        };
        let p = match port {
            Some(j) => match parse_decimal(args[j + 1].as_str(), 65535) {
                Some(v) => v as u16,
                None => unreached(),
            },
            None => unreached(),
        };
        (address, p)
    }

    /// The arguments `args_str` with the value after each port flag replaced
    /// by `base_value + val_2_add`; each argument is written after a space.
    pub fn change_port_arg(&self, args_str: String, base_value: usize, val_2_add: usize) -> (r: String)
        requires
            base_value + val_2_add <= usize::MAX,
        ensures
            r@ == port_fold(split_ws(args_str@), decimal((base_value + val_2_add) as nat)).0,
    {
        let args = split_whitespace(args_str.as_str());
        let ghost vs = views(args@);
        let new_port_val = usize_to_string(base_value + val_2_add);
        let mut new_args_string = String::new();
        let mut gotit = false;
        let mut k: usize = 0;
        assert(vs.take(0) =~= Seq::<Seq<char>>::empty());
        while k < args.len()
            invariant
                vs == views(args@),
                k <= args@.len(),
                new_port_val@ == decimal((base_value + val_2_add) as nat),
                port_fold(vs.take(k as int), new_port_val@) == (new_args_string@, gotit),
            decreases args@.len() - k,
        {
            let arg = &args[k];
            let ghost before = new_args_string@;
            let ghost was = gotit;
            new_args_string.append(" ");
            if gotit {
                new_args_string.append(new_port_val.as_str());
            } else {
                new_args_string.append(arg.as_str());
            }
            gotit = port_flag(arg.as_str());
            proof {
                let t = vs.take(k + 1);
                assert(t.drop_last() =~= vs.take(k as int));
                assert(t.last() == arg@);
                assert(new_args_string@ =~= before + " "@ + (if was {
                    new_port_val@
                } else {
                    arg@
                }));
            }
            k = k + 1;
        }
        assert(vs.take(k as int) =~= vs);
        new_args_string
    }
}

/// The arguments after the rewriting: each one that follows a port flag
/// becomes `port`.
pub open spec fn rewritten(args: Seq<Seq<char>>, port: Seq<char>) -> Seq<Seq<char>> {
    Seq::new(args.len(), |k: int| if k > 0 && is_port_flag(args[k - 1]) { port } else { args[k] })
}

/// A word: some characters and no whitespace.
pub open spec fn is_word(t: Seq<char>) -> bool {
    t.len() > 0 && forall|i: int| 0 <= i < t.len() ==> !is_ws(#[trigger] t[i])
}

proof fn lemma_ws_fold_word(s: Seq<char>, t: Seq<char>)
    requires
        forall|i: int| 0 <= i < t.len() ==> !is_ws(#[trigger] t[i]),
    ensures
        ws_fold(s + t) == (ws_fold(s).0, ws_fold(s).1 + t),
    decreases t.len(),
{
    if t.len() == 0 {
        assert(s + t =~= s);
        assert(ws_fold(s).1 + t =~= ws_fold(s).1);
    } else {
        let u = t.drop_last();
        assert forall|i: int| 0 <= i < u.len() implies !is_ws(#[trigger] u[i]) by {
            assert(u[i] == t[i]);
        }
        lemma_ws_fold_word(s, u);
        assert((s + t).drop_last() =~= s + u);
        assert((s + t).last() == t.last());
        assert(!is_ws(t.last())) by {
            assert(t[t.len() - 1] == t.last());
        }
        assert((ws_fold(s).1 + u).push(t.last()) =~= ws_fold(s).1 + t);
    }
}

proof fn lemma_ws_fold_space(s: Seq<char>)
    ensures
        ws_fold(s + " "@) == (if ws_fold(s).1.len() > 0 {
            ws_fold(s).0.push(ws_fold(s).1)
        } else {
            ws_fold(s).0
        }, Seq::<char>::empty()),
{
    reveal_strlit(" ");
    assert((s + " "@).drop_last() =~= s);
    assert((s + " "@).last() == ' ');
    assert(is_ws(' '));
}

/// The tokens of a whitespace split are words.
proof fn lemma_ws_fold_words(s: Seq<char>)
    ensures
        forall|i: int| 0 <= i < ws_fold(s).0.len() ==> is_word(#[trigger] ws_fold(s).0[i]),
        forall|i: int| 0 <= i < ws_fold(s).1.len() ==> !is_ws(#[trigger] ws_fold(s).1[i]),
    decreases s.len(),
{
    if s.len() > 0 {
        lemma_ws_fold_words(s.drop_last());
        let (done, cur) = ws_fold(s.drop_last());
        if !is_ws(s.last()) {
            assert forall|i: int| 0 <= i < cur.push(s.last()).len() implies !is_ws(#[trigger] cur.push(s.last())[i]) by {
                if i < cur.len() {
                    assert(cur.push(s.last())[i] == cur[i]);
                }
            }
        }
    }
}

proof fn lemma_split_ws_words(s: Seq<char>)
    ensures
        forall|i: int| 0 <= i < split_ws(s).len() ==> is_word(#[trigger] split_ws(s)[i]),
{
    lemma_ws_fold_words(s);
    let (done, cur) = ws_fold(s);
    if cur.len() > 0 {
        assert forall|i: int| 0 <= i < split_ws(s).len() implies is_word(#[trigger] split_ws(s)[i]) by {
            if i < done.len() {
                assert(split_ws(s)[i] == done[i]);
            }
        }
    }
}

/// Rewriting words gives text that splits back into the rewritten words.
proof fn lemma_port_fold_splits(args: Seq<Seq<char>>, port: Seq<char>)
    requires
        forall|i: int| 0 <= i < args.len() ==> is_word(#[trigger] args[i]),
        is_word(port),
    ensures
        port_fold(args, port).1 == (args.len() > 0 && is_port_flag(args.last())),
        args.len() == 0 ==> port_fold(args, port).0 == Seq::<char>::empty(),
        args.len() > 0 ==> ws_fold(port_fold(args, port).0) == (
            rewritten(args, port).drop_last(),
            rewritten(args, port).last(),
        ),
    decreases args.len(),
{
    reveal_strlit(" ");
    if args.len() > 0 {
        let p = args.drop_last();
        assert forall|i: int| 0 <= i < p.len() implies is_word(#[trigger] p[i]) by {
            assert(p[i] == args[i]);
        }
        lemma_port_fold_splits(p, port);
        let (out, gotit) = port_fold(p, port);
        let a = args.last();
        assert(is_word(a)) by {
            assert(args[args.len() - 1] == a);
        }
        let tok = if gotit {
            port
        } else {
            a
        };
        lemma_ws_fold_space(out);
        let r = rewritten(args, port);
        let rp = rewritten(p, port);
        assert(r.drop_last() =~= rp) by {
            assert forall|k: int| 0 <= k < rp.len() implies r.drop_last()[k] == rp[k] by {
                if k > 0 {
                    assert(args[k - 1] == p[k - 1]);
                }
                assert(args[k] == p[k]);
            }
        }
        assert(r.last() == tok) by {
            assert(r[r.len() - 1] == tok);
        }
        if p.len() == 0 {
            assert(ws_fold(out) == (Seq::<Seq<char>>::empty(), Seq::<char>::empty()));
        } else {
            assert(rp.last().len() > 0) by {
                assert(rp[rp.len() - 1] == rp.last());
                if p.len() >= 2 && is_port_flag(p[p.len() - 2]) {
                } else {
                    assert(p[p.len() - 1] == p.last());
                }
            }
            assert(rp.drop_last().push(rp.last()) =~= rp);
        }
        lemma_ws_fold_word(out + " "@, tok);
        assert(port_fold(args, port).0 =~= out + " "@ + tok);
        assert(Seq::<char>::empty() + tok =~= tok);
    }
}

proof fn lemma_first_port_flag_is(args: Seq<Seq<char>>, j: int)
    requires
        0 <= j < args.len(),
        is_port_flag(args[j]),
        forall|k: int| 0 <= k < j ==> !is_port_flag(#[trigger] args[k]),
    ensures
        first_port_flag(args) == Some(j),
    decreases args.len(),
{
    if j < args.len() - 1 {
        let p = args.drop_last();
        assert forall|k: int| 0 <= k < j implies !is_port_flag(#[trigger] p[k]) by {
            assert(p[k] == args[k]);
        }
        assert(p[j] == args[j]);
        lemma_first_port_flag_is(p, j);
    } else {
        let p = args.drop_last();
        assert(first_port_flag(p) is None) by {
            lemma_no_port_flag(p);
        }
        assert(args.last() == args[j]);
    }
}

proof fn lemma_no_port_flag(args: Seq<Seq<char>>)
    requires
        forall|k: int| 0 <= k < args.len() ==> !is_port_flag(#[trigger] args[k]),
    ensures
        first_port_flag(args) is None,
    decreases args.len(),
{
    if args.len() > 0 {
        let p = args.drop_last();
        assert forall|k: int| 0 <= k < p.len() implies !is_port_flag(#[trigger] p[k]) by {
            assert(p[k] == args[k]);
        }
        lemma_no_port_flag(p);
        assert(args.last() == args[args.len() - 1]);
    }
}

proof fn lemma_first_port_flag_shape(args: Seq<Seq<char>>)
    ensures
        first_port_flag(args) matches Some(j) ==> 0 <= j < args.len() && is_port_flag(args[j]) && forall|k: int|
            0 <= k < j ==> !is_port_flag(#[trigger] args[k]),
    decreases args.len(),
{
    if args.len() > 0 {
        let p = args.drop_last();
        lemma_first_port_flag_shape(p);
        if first_port_flag(p) is None {
            if is_port_flag(args.last()) {
                assert forall|k: int| 0 <= k < args.len() - 1 implies !is_port_flag(#[trigger] args[k]) by {
                    assert(args[k] == p[k]);
                    if is_port_flag(p[k]) {
                        lemma_first_flag_exists(p, k);
                    }
                }
            }
        } else {
            let j = first_port_flag(p).unwrap();
            assert forall|k: int| 0 <= k < j implies !is_port_flag(#[trigger] args[k]) by {
                assert(args[k] == p[k]);
            }
            assert(args[j] == p[j]);
        }
    }
}

proof fn lemma_first_flag_exists(args: Seq<Seq<char>>, k: int)
    requires
        0 <= k < args.len(),
        is_port_flag(args[k]),
    ensures
        first_port_flag(args) is Some,
    decreases args.len(),
{
    if k < args.len() - 1 {
        assert(args.drop_last()[k] == args[k]);
        lemma_first_flag_exists(args.drop_last(), k);
    } else {
        assert(args.last() == args[k]);
    }
}

/// After the port of a worker's arguments is rewritten to
/// `base_value + val_2_add`, the arguments name that port: each worker's
/// target and benchmark listen on the base port plus the worker's number.
pub proof fn lemma_changed_port_is_read_back(args_str: Seq<char>, base_value: usize, val_2_add: usize)
    requires
        args_ok(split_ws(args_str)),
        base_value + val_2_add <= 65535,
    ensures
        port_of(split_ws(port_fold(split_ws(args_str), decimal((base_value + val_2_add) as nat)).0)) == base_value
            + val_2_add,
{
    let args = split_ws(args_str);
    let n = (base_value + val_2_add) as nat;
    let port = decimal(n);
    lemma_split_ws_words(args_str);
    lemma_decimal_digits(n);
    assert(is_word(port)) by {
        assert forall|i: int| 0 <= i < port.len() implies !is_ws(#[trigger] port[i]) by {
            assert(is_digit(port[i]));
        }
    }
    lemma_port_fold_splits(args, port);
    let r = rewritten(args, port);
    lemma_first_port_flag_shape(args);
    let j = first_port_flag(args).unwrap();
    assert(r.len() == args.len());
    assert(split_ws(port_fold(args, port).0) =~= r) by {
        let (done, cur) = ws_fold(port_fold(args, port).0);
        assert(r.last().len() > 0) by {
            assert(r[r.len() - 1] == r.last());
            if r.len() >= 2 && is_port_flag(args[r.len() - 2]) {
            } else {
                assert(is_word(args[args.len() - 1]));
            }
        }
        assert(r.drop_last().push(r.last()) =~= r);
    }
    assert forall|k: int| 0 <= k < j implies !is_port_flag(#[trigger] r[k]) by {
        if k > 0 {
            assert(!is_port_flag(args[k - 1]));
        }
    }
    if j > 0 {
        assert(!is_port_flag(args[j - 1]));
    }
    assert(r[j] == args[j]);
    lemma_first_port_flag_is(r, j);
    assert(r[j + 1] == port);
    lemma_decimal_round_trip(n, 65535);
}


proof fn lemma_first_address_flag_at_start(args: Seq<Seq<char>>)
    requires
        args.len() > 0,
        is_address_flag(args[0]),
    ensures
        first_address_flag(args) == Some(0int),
    decreases args.len(),
{
    if args.len() > 1 {
        assert(args.drop_last()[0] == args[0]);
        lemma_first_address_flag_at_start(args.drop_last());
    } else {
        assert(args.drop_last().len() == 0);
        assert(first_address_flag(args.drop_last()) is None);
        assert(args.last() == args[0]);
    }
}

proof fn lemma_no_address_flag(args: Seq<Seq<char>>)
    requires
        forall|i: int| 0 <= i < args.len() ==> !is_address_flag(#[trigger] args[i]),
    ensures
        first_address_flag(args) is None,
    decreases args.len(),
{
    if args.len() > 0 {
        assert forall|i: int| 0 <= i < args.drop_last().len() implies !is_address_flag(#[trigger] args.drop_last()[i]) by {
            assert(args.drop_last()[i] == args[i]);
        }
        lemma_no_address_flag(args.drop_last());
        assert(!is_address_flag(args[args.len() - 1]));
    }
}

/// The address flags are `-l`, `--address`, `-h`, `--host` and `--server`:
/// arguments that begin with one of them name the address that follows it,
/// and arguments holding none of them give the local host.
pub proof fn lemma_address_flags(args: Seq<Seq<char>>)
    ensures
        args.len() > 1 && (args[0] == "-l"@ || args[0] == "--address"@ || args[0] == "-h"@ || args[0] == "--host"@
            || args[0] == "--server"@) ==> address_of(args) == args[1],
        (forall|i: int|
            0 <= i < args.len() ==> #[trigger] args[i] != "-l"@ && args[i] != "--address"@ && args[i] != "-h"@
                && args[i] != "--host"@ && args[i] != "--server"@) ==> address_of(args) == "127.0.0.1"@,
{
    if args.len() > 1 && (args[0] == "-l"@ || args[0] == "--address"@ || args[0] == "-h"@ || args[0] == "--host"@
        || args[0] == "--server"@) {
        lemma_first_address_flag_at_start(args);
    }
    if forall|i: int|
        0 <= i < args.len() ==> #[trigger] args[i] != "-l"@ && args[i] != "--address"@ && args[i] != "-h"@
            && args[i] != "--host"@ && args[i] != "--server"@ {
        lemma_no_address_flag(args);
    }
}

/// Reading `FLAG ADDRESS -p PORT`, for each address flag, gives that
/// address and port.
pub proof fn lemma_flag_address_and_port(flag: Seq<char>, address: Seq<char>, port: Seq<char>)
    requires
        flag == "-l"@ || flag == "--address"@ || flag == "-h"@ || flag == "--host"@ || flag == "--server"@,
        parse_unsigned(port, 65535) is Some,
        address != "-p"@ && address != "--port"@,
    ensures
        address_of(seq![flag, address, "-p"@, port]) == address,
        port_of(seq![flag, address, "-p"@, port]) == parse_unsigned(port, 65535)->0,
        args_ok(seq![flag, address, "-p"@, port]),
{
    let args = seq![flag, address, "-p"@, port];
    reveal_strlit("-p");
    reveal_strlit("--port");
    reveal_strlit("-l");
    reveal_strlit("--address");
    reveal_strlit("-h");
    reveal_strlit("--host");
    reveal_strlit("--server");
    assert(args[0] == flag && args[1] == address);
    lemma_address_flags(args);
    lemma_first_address_flag_at_start(args);
    assert(!is_port_flag(flag)) by {
        if flag == "-l"@ || flag == "-h"@ {
            assert(flag[1] != "-p"@[1]);
            assert(flag.len() != "--port"@.len());
        } else if flag == "--host"@ {
            assert(flag[2] != "--port"@[2]);
            assert(flag.len() != "-p"@.len());
        } else {
            assert(flag.len() != "--port"@.len());
            assert(flag.len() != "-p"@.len());
        }
    }
    let s1 = seq![flag];
    let s2 = seq![flag, address];
    let s3 = seq![flag, address, "-p"@];
    assert(s1.drop_last() =~= Seq::<Seq<char>>::empty());
    assert(s2.drop_last() =~= s1);
    assert(s3.drop_last() =~= s2);
    assert(args.drop_last() =~= s3);
    assert(first_port_flag(Seq::<Seq<char>>::empty()) is None);
    assert(first_port_flag(s1) is None);
    assert(first_port_flag(s2) is None);
    assert(first_port_flag(s3) == Some(2int));
    assert(first_port_flag(args) == Some(2int));
    assert(args[3int] == port);
    assert(port_of(args) == parse_unsigned(port, 65535).unwrap());
    assert(parse_unsigned(port, 65535).unwrap() == parse_unsigned(port, 65535)->0);
}

} // verus!
