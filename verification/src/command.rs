//! Parsing of the debugging session's command surface.
//!
//! A command line is tokenized by the front end; the first token selects
//! the command and the rest are its arguments.  Breakpoint addresses are
//! written in hexadecimal, with or without a leading `0x`/`0X`.

use vstd::prelude::*;

verus! {

broadcast use vstd::string::group_string_axioms;

/// A parsed command of the debugging session.
pub enum DebuggerCommand {
    Quit,
    Run(Vec<String>),
    Cont,
    BackTrace,
    BreakPoint(Option<String>),
}

/// Whether `c` is a hexadecimal digit.
pub open spec fn is_hex_digit(c: char) -> bool {
    (48 <= c as u32 && c as u32 <= 57) || (97 <= c as u32 && c as u32 <= 102) || (65 <= c as u32
        && c as u32 <= 70)
}

/// The numeric value of a hexadecimal digit.
pub open spec fn hex_digit_value(c: char) -> nat {
    if 48 <= c as u32 && c as u32 <= 57 {
        (c as u32 - 48) as nat
    } else if 97 <= c as u32 && c as u32 <= 102 {
        (c as u32 - 87) as nat
    } else {
        (c as u32 - 55) as nat
    }
}

/// The value of a string of hexadecimal digits, most significant first.
pub open spec fn hex_value(s: Seq<char>) -> nat
    decreases s.len(),
{
    if s.len() == 0 {
        0
    } else {
        hex_value(s.drop_last()) * 16 + hex_digit_value(s.last())
    }
}

pub open spec fn all_hex_digits(s: Seq<char>) -> bool {
    forall|i: int| 0 <= i < s.len() ==> is_hex_digit(s[i])
}

/// Drops a leading `0x` or `0X`, if present.
pub open spec fn strip_hex_prefix(s: Seq<char>) -> Seq<char> {
    if s.len() >= 2 && s[0] == '0' && (s[1] == 'x' || s[1] == 'X') {
        s.skip(2)
    } else {
        s
    }
}

/// What address a token denotes: after stripping the optional prefix
/// there must be at least one digit, every character must be a
/// hexadecimal digit, and the value must fit in a machine word.
pub open spec fn spec_parse_address(s: Seq<char>) -> Option<usize> {
    let d = strip_hex_prefix(s);
    if d.len() > 0 && all_hex_digits(d) && hex_value(d) <= usize::MAX {
        Some(hex_value(d) as usize)
    } else {
        None
    }
}

/// The value of a digit string never shrinks when digits are appended.
proof fn lemma_hex_value_prefix_le(s: Seq<char>, k: int)
    requires
        0 <= k <= s.len(),
    ensures
        hex_value(s.take(k)) <= hex_value(s),
    decreases s.len() - k,
{
    if k == s.len() {
        assert(s.take(k) =~= s);
    } else {
        lemma_hex_value_prefix_le(s.drop_last(), k);
        assert(s.drop_last().take(k) =~= s.take(k));
        assert(hex_value(s) == hex_value(s.drop_last()) * 16 + hex_digit_value(s.last()));
        assert(hex_value(s.drop_last()) <= hex_value(s.drop_last()) * 16) by (nonlinear_arith);
    }
}

/// Parses a breakpoint address token.
pub fn parse_address(addr: &str) -> (r: Option<usize>)
    ensures
        r == spec_parse_address(addr@),
{
    let n = addr.unicode_len();
    let mut start: usize = 0;
    if n >= 2 {
        let c0 = addr.get_char(0);
        let c1 = addr.get_char(1);
        if c0 == '0' && (c1 == 'x' || c1 == 'X') {
            start = 2;
        }
    }
    let ghost d = strip_hex_prefix(addr@);
    proof {
        assert(d =~= addr@.skip(start as int));
    }
    if start >= n {
        return None;
    }
    let mut acc: usize = 0;
    let mut i = start;
    while i < n
        invariant
            start <= i <= n,
            n == addr@.len(),
            d == strip_hex_prefix(addr@),
            d =~= addr@.skip(start as int),
            forall|k: int| 0 <= k < i - start ==> is_hex_digit(d[k]),
            acc == hex_value(d.take(i - start)),
        decreases n - i,
    {
        let c = addr.get_char(i);
        let v: u32 = c as u32;
        let dv: u32 = if 48 <= v && v <= 57 {
            v - 48
        } else if 97 <= v && v <= 102 {
            v - 87
        } else if 65 <= v && v <= 70 {
            v - 55
        } else {
            proof {
                assert(d[i - start] == addr@[i as int]);
                assert(!is_hex_digit(d[i - start]));
            }
            return None;
        };
        proof {
            assert(d[i - start] == addr@[i as int]);
            assert(is_hex_digit(d[i - start]));
            assert(hex_digit_value(d[i - start]) == dv);
        }
        if acc > (usize::MAX - (dv as usize)) / 16 {
            proof {
                let k = i - start;
                assert(d.take(k + 1).drop_last() =~= d.take(k));
                assert(d.take(k + 1).last() == d[k]);
                assert(hex_value(d.take(k + 1)) == acc * 16 + dv);
                assert(acc * 16 + dv > usize::MAX) by (nonlinear_arith)
                    requires
                        acc > (usize::MAX - (dv as usize)) / 16,
                        dv <= usize::MAX,
                ;
                lemma_hex_value_prefix_le(d, k + 1);
            }
            return None;
        }
        proof {
            let k = i - start;
            assert(d.take(k + 1).drop_last() =~= d.take(k));
            assert(d.take(k + 1).last() == d[k]);
            assert(acc * 16 + dv <= usize::MAX) by (nonlinear_arith)
                requires
                    acc <= (usize::MAX - (dv as usize)) / 16,
                    dv <= usize::MAX,
            ;
        }
        acc = acc * 16 + (dv as usize);
        i += 1;
    }
    proof {
        assert(d.take(n - start) =~= d);
    }
    Some(acc)
}

/// Recognizes a token vector as a command.  The first token selects the
/// command; `run` takes the remaining tokens as the target's arguments,
/// and `breakpoint` takes an optional address token.
impl DebuggerCommand {
    pub fn from_tokens(tokens: &Vec<&str>) -> (r: Option<DebuggerCommand>)
        requires
            tokens@.len() > 0,
        ensures
            (r == Some(DebuggerCommand::Quit)) <==> (tokens@[0]@ == "q"@ || tokens@[0]@
                == "quit"@),
            (r == Some(DebuggerCommand::Cont)) <==> (tokens@[0]@ == "c"@ || tokens@[0]@
                == "cont"@),
            (r == Some(DebuggerCommand::BackTrace)) <==> (tokens@[0]@ == "bt"@ || tokens@[0]@
                == "back"@ || tokens@[0]@ == "backtrace"@),
            (r matches Some(DebuggerCommand::Run(args)) && args.deep_view()
                == tokens.deep_view().skip(1)) <==> (tokens@[0]@ == "r"@ || tokens@[0]@
                == "run"@),
            (r matches Some(DebuggerCommand::BreakPoint(pos)) && (match pos {
                Some(p) => tokens@.len() > 1 && p@ == tokens@[1]@,
                None => tokens@.len() == 1,
            })) <==> (tokens@[0]@ == "b"@ || tokens@[0]@ == "breakpoint"@),
            r is None <==> !(tokens@[0]@ == "q"@ || tokens@[0]@ == "quit"@ || tokens@[0]@ == "c"@
                || tokens@[0]@ == "cont"@ || tokens@[0]@ == "bt"@ || tokens@[0]@ == "back"@
                || tokens@[0]@ == "backtrace"@ || tokens@[0]@ == "r"@ || tokens@[0]@ == "run"@
                || tokens@[0]@ == "b"@ || tokens@[0]@ == "breakpoint"@),
    {
        proof {
            reveal_strlit("q");
            reveal_strlit("quit");
            reveal_strlit("c");
            reveal_strlit("cont");
            reveal_strlit("bt");
            reveal_strlit("back");
            reveal_strlit("backtrace");
            reveal_strlit("r");
            reveal_strlit("run");
            reveal_strlit("b");
            reveal_strlit("breakpoint");
            lemma_keyword_facts();
        }
        let t0: &str = tokens[0];
        if str_eq(t0, "q") || str_eq(t0, "quit") {
            Some(DebuggerCommand::Quit)
        } else if str_eq(t0, "c") || str_eq(t0, "cont") {
            Some(DebuggerCommand::Cont)
        } else if str_eq(t0, "bt") || str_eq(t0, "back") || str_eq(t0, "backtrace") {
            Some(DebuggerCommand::BackTrace)
        } else if str_eq(t0, "r") || str_eq(t0, "run") {
            let args = owned_tail(tokens);
            Some(DebuggerCommand::Run(args))
        } else if str_eq(t0, "b") || str_eq(t0, "breakpoint") {
            let pos = if tokens.len() > 1 {
                Some(to_owned_str(tokens[1]))
            } else {
                None
            };
            Some(DebuggerCommand::BreakPoint(pos))
        } else {
            None
        }
    }
}

/// The lengths and first characters of the command keywords, from which
/// any two keywords of different commands are told apart.
proof fn lemma_keyword_facts()
    ensures
        "q"@.len() == 1 && "q"@[0] == 'q',
        "quit"@.len() == 4 && "quit"@[0] == 'q',
        "c"@.len() == 1 && "c"@[0] == 'c',
        "cont"@.len() == 4 && "cont"@[0] == 'c',
        "bt"@.len() == 2 && "bt"@[0] == 'b',
        "back"@.len() == 4 && "back"@[0] == 'b',
        "backtrace"@.len() == 9,
        "r"@.len() == 1 && "r"@[0] == 'r',
        "run"@.len() == 3,
        "b"@.len() == 1 && "b"@[0] == 'b',
        "breakpoint"@.len() == 10,
{
    reveal_strlit("q");
    reveal_strlit("quit");
    reveal_strlit("c");
    reveal_strlit("cont");
    reveal_strlit("bt");
    reveal_strlit("back");
    reveal_strlit("backtrace");
    reveal_strlit("r");
    reveal_strlit("run");
    reveal_strlit("b");
    reveal_strlit("breakpoint");
}

/// Character-for-character string comparison.
pub fn str_eq(a: &str, b: &str) -> (r: bool)
    ensures
        r == (a@ == b@),
{
    let an = a.unicode_len();
    let bn = b.unicode_len();
    if an != bn {
        proof {
            assert(a@ != b@);
        }
        return false;
    }
    let mut i: usize = 0;
    while i < an
        invariant
            i <= an,
            an == a@.len(),
            an == b@.len(),
            forall|k: int| 0 <= k < i ==> a@[k] == b@[k],
        decreases an - i,
    {
        if a.get_char(i) != b.get_char(i) {
            return false;
        }
        i += 1;
    }
    proof {
        assert(a@ =~= b@);
    }
    true
}

/// Copies every token after the first into owned strings.
fn owned_tail(tokens: &Vec<&str>) -> (args: Vec<String>)
    requires
        tokens@.len() > 0,
    ensures
        args.deep_view() == tokens.deep_view().skip(1),
{
    let mut args: Vec<String> = Vec::new();
    let mut i: usize = 1;
    while i < tokens.len()
        invariant
            1 <= i <= tokens@.len(),
            args.deep_view() =~= tokens.deep_view().subrange(1, i as int),
        decreases tokens@.len() - i,
    {
        let ghost prev = args.deep_view();
        args.push(to_owned_str(tokens[i]));
        proof {
            assert(args@.last()@ == tokens@[i as int]@);
            assert(args.deep_view() =~= prev.push(tokens@[i as int]@));
            assert(args.deep_view() =~= tokens.deep_view().subrange(1, i + 1));
        }
        i += 1;
    }
    proof {
        assert(args.deep_view() =~= tokens.deep_view().skip(1));
    }
    args
}

/// Copies a borrowed token into an owned string.
fn to_owned_str(s: &str) -> (r: String)
    ensures
        r@ == s@,
{
    s.to_owned()
}

} // verus!
