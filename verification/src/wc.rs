//! Word, line and character counting over a file's lines, and the
//! option parsing of the counting command.
//!
//! An option string such as `-wl` selects which counts to produce:
//! `w` words, `l` lines, and `m` or `c` characters, in the order the
//! letters appear; anything else is ignored.  With no option string, or
//! one too short to carry letters, every count is produced.  A line's
//! word count is the number of pieces a split on single spaces yields.

use vstd::multiset::Multiset;
use vstd::prelude::*;

verus! {

broadcast use vstd::seq_lib::group_to_multiset_ensures;

/// One requested count.
#[derive(Clone, Copy, Debug, PartialEq, Eq, Structural)]
pub enum WCCommandOption {
    WORDS,
    LINES,
    CHARS,
}

/// What a single option letter selects: `m`/`c` characters, `l` lines,
/// `w` words, anything else nothing.
pub open spec fn opt_of_char(c: char) -> Seq<WCCommandOption> {
    if c == 'm' || c == 'c' {
        seq![WCCommandOption::CHARS]
    } else if c == 'l' {
        seq![WCCommandOption::LINES]
    } else if c == 'w' {
        seq![WCCommandOption::WORDS]
    } else {
        Seq::empty()
    }
}

/// The counts an option string selects, in order.
pub open spec fn opts_of(s: Seq<char>) -> Seq<WCCommandOption>
    decreases s.len(),
{
    if s.len() == 0 {
        Seq::empty()
    } else {
        opt_of_char(s[0]) + opts_of(s.skip(1))
    }
}

/// The selection of every count, in the default order.
pub open spec fn default_opts() -> Seq<WCCommandOption> {
    seq![WCCommandOption::CHARS, WCCommandOption::WORDS, WCCommandOption::LINES]
}

proof fn lemma_opts_push(t: Seq<char>, c: char)
    ensures
        opts_of(t.push(c)) == opts_of(t) + opt_of_char(c),
    decreases t.len(),
{
    if t.len() == 0 {
        assert(t.push(c).skip(1) =~= Seq::<char>::empty());
        assert(t.push(c).len() == 1);
        assert(t.push(c)[0] == c);
        assert(opts_of(t.push(c)) == opt_of_char(c) + opts_of(t.push(c).skip(1)));
        assert(opts_of(t.push(c).skip(1)) == Seq::<WCCommandOption>::empty());
        assert(opts_of(t.push(c)) =~= opt_of_char(c));
        assert(opts_of(t) + opt_of_char(c) =~= opt_of_char(c));
    } else {
        assert(t.push(c)[0] == t[0]);
        assert(t.push(c).skip(1) =~= t.skip(1).push(c));
        lemma_opts_push(t.skip(1), c);
        assert(opts_of(t.push(c)) =~= opts_of(t) + opt_of_char(c));
    }
}

/// Parses the option argument: the letters after the leading flag
/// character select the counts; a missing or too-short argument selects
/// every count.
pub fn parse_args(option: Option<&String>) -> (r: Vec<WCCommandOption>)
    ensures
        (match option {
            Some(item) => item@.len() > 1,
            None => false,
        }) ==> r@ == opts_of(option->Some_0@.skip(1)),
        (match option {
            Some(item) => item@.len() <= 1,
            None => true,
        }) ==> r@ == default_opts(),
{
    let mut result: Vec<WCCommandOption> = Vec::new();
    let item = match option {
        Some(item) => item,
        None => {
            result.push(WCCommandOption::CHARS);
            result.push(WCCommandOption::WORDS);
            result.push(WCCommandOption::LINES);
            proof {
                assert(result@ =~= default_opts());
            }
            return result;
        },
    };
    let s = item.as_str();
    let n = s.unicode_len();
    if n <= 1 {
        result.push(WCCommandOption::CHARS);
        result.push(WCCommandOption::WORDS);
        result.push(WCCommandOption::LINES);
        proof {
            assert(result@ =~= default_opts());
        }
        return result;
    }
    let mut i: usize = 1;
    while i < n
        invariant
            n == s@.len(),
            1 <= i <= n,
            result@ == opts_of(s@.subrange(1, i as int)),
        decreases n - i,
    {
        let c = s.get_char(i);
        proof {
            assert(s@.subrange(1, i + 1) =~= s@.subrange(1, i as int).push(s@[i as int]));
            lemma_opts_push(s@.subrange(1, i as int), s@[i as int]);
        }
        if c == 'm' || c == 'c' {
            result.push(WCCommandOption::CHARS);
        } else if c == 'l' {
            result.push(WCCommandOption::LINES);
        } else if c == 'w' {
            result.push(WCCommandOption::WORDS);
        }
        proof {
            assert(result@ =~= opts_of(s@.subrange(1, i + 1)));
        }
        i += 1;
    }
    proof {
        assert(s@.subrange(1, n as int) =~= s@.skip(1));
    }
    result
}

/// How many times `c` occurs in `s`.
pub open spec fn count_char(s: Seq<char>, c: char) -> nat
    decreases s.len(),
{
    if s.len() == 0 {
        0
    } else {
        (if s[0] == c {
            1nat
        } else {
            0
        }) + count_char(s.skip(1), c)
    }
}

/// The pieces a split of `s` on single spaces yields.
pub open spec fn words_of_line(s: Seq<char>) -> nat {
    count_char(s, ' ') + 1
}

proof fn lemma_count_push(t: Seq<char>, x: char, c: char)
    ensures
        count_char(t.push(x), c) == count_char(t, c) + (if x == c {
            1nat
        } else {
            0
        }),
    decreases t.len(),
{
    if t.len() == 0 {
        assert(t.push(x).skip(1) =~= Seq::<char>::empty());
        assert(t.push(x).len() == 1);
        assert(t.push(x)[0] == x);
        assert(count_char(t.push(x), c) == (if x == c {
            1nat
        } else {
            0
        }) + count_char(t.push(x).skip(1), c));
        assert(count_char(t.push(x).skip(1), c) == 0);
    } else {
        assert(t.push(x)[0] == t[0]);
        assert(t.push(x).skip(1) =~= t.skip(1).push(x));
        lemma_count_push(t.skip(1), x, c);
    }
}

/// Counts the pieces a split of `line` on single spaces yields.
pub fn line_word_count(line: &String) -> (r: usize)
    requires
        line@.len() < usize::MAX,
    ensures
        r == words_of_line(line@),
{
    let s = line.as_str();
    let n = s.unicode_len();
    let mut count: usize = 0;
    let mut i: usize = 0;
    proof {
        assert(s@.subrange(0, 0) =~= Seq::<char>::empty());
    }
    while i < n
        invariant
            n == s@.len(),
            n < usize::MAX,
            i <= n,
            count == count_char(s@.subrange(0, i as int), ' '),
            count <= i,
        decreases n - i,
    {
        let c = s.get_char(i);
        proof {
            assert(s@.subrange(0, i + 1) =~= s@.subrange(0, i as int).push(s@[i as int]));
            lemma_count_push(s@.subrange(0, i as int), s@[i as int], ' ');
        }
        if c == ' ' {
            count += 1;
        }
        i += 1;
    }
    proof {
        assert(s@.subrange(0, n as int) =~= s@);
    }
    count + 1
}

/// The total word count of the lines from position `i` on.
pub open spec fn words_total(lines: Seq<Seq<char>>, i: int) -> nat
    decreases lines.len() - i,
{
    if i < 0 || i >= lines.len() {
        0
    } else {
        words_of_line(lines[i]) + words_total(lines, i + 1)
    }
}

/// The total character count of the lines from position `i` on.
pub open spec fn chars_total(lines: Seq<Seq<char>>, i: int) -> nat
    decreases lines.len() - i,
{
    if i < 0 || i >= lines.len() {
        0
    } else {
        lines[i].len() + chars_total(lines, i + 1)
    }
}

/// The value each requested count denotes for a file's lines.
pub open spec fn count_for(opt: WCCommandOption, lines: Seq<Seq<char>>) -> nat {
    match opt {
        WCCommandOption::WORDS => words_total(lines, 0),
        WCCommandOption::LINES => lines.len(),
        WCCommandOption::CHARS => chars_total(lines, 0),
    }
}

/// Computes the requested counts over a file's lines, in option order.
pub fn wc_counts(lines: &Vec<String>, options: &Vec<WCCommandOption>) -> (r: Vec<usize>)
    requires
        words_total(lines.deep_view(), 0) <= usize::MAX,
        chars_total(lines.deep_view(), 0) <= usize::MAX,
        forall|k: int| 0 <= k < lines@.len() ==> #[trigger] lines@[k]@.len() < usize::MAX,
    ensures
        r@.len() == options@.len(),
        forall|k: int|
            0 <= k < options@.len() ==> #[trigger] r@[k] == count_for(
                options@[k],
                lines.deep_view(),
            ),
{
    let ghost lv = lines.deep_view();
    let mut r: Vec<usize> = Vec::new();
    let mut oi: usize = 0;
    while oi < options.len()
        invariant
            lv == lines.deep_view(),
            words_total(lv, 0) <= usize::MAX,
            chars_total(lv, 0) <= usize::MAX,
            forall|k: int| 0 <= k < lines@.len() ==> #[trigger] lines@[k]@.len() < usize::MAX,
            oi <= options@.len(),
            r@.len() == oi,
            forall|k: int|
                0 <= k < oi ==> #[trigger] r@[k] == count_for(options@[k], lv),
        decreases options@.len() - oi,
    {
        let opt = options[oi];
        let v: usize = match opt {
            WCCommandOption::LINES => lines.len(),
            WCCommandOption::WORDS => {
                let mut acc: usize = 0;
                let mut li: usize = 0;
                while li < lines.len()
                    invariant
                        lv == lines.deep_view(),
                        words_total(lv, 0) <= usize::MAX,
                        forall|k: int|
                            0 <= k < lines@.len() ==> #[trigger] lines@[k]@.len() < usize::MAX,
                        li <= lines@.len(),
                        acc + words_total(lv, li as int) == words_total(lv, 0),
                    decreases lines@.len() - li,
                {
                    proof {
                        assert(lv[li as int] == lines@[li as int]@);
                    }
                    let w = line_word_count(&lines[li]);
                    acc = acc + w;
                    li += 1;
                }
                acc
            },
            WCCommandOption::CHARS => {
                let mut acc: usize = 0;
                let mut li: usize = 0;
                while li < lines.len()
                    invariant
                        lv == lines.deep_view(),
                        chars_total(lv, 0) <= usize::MAX,
                        li <= lines@.len(),
                        acc + chars_total(lv, li as int) == chars_total(lv, 0),
                    decreases lines@.len() - li,
                {
                    proof {
                        assert(lv[li as int] == lines@[li as int]@);
                    }
                    let w = lines[li].as_str().unicode_len();
                    acc = acc + w;
                    li += 1;
                }
                acc
            },
        };
        r.push(v);
        oi += 1;
    }
    r
}

/// Sorts the counts ascending; the collection of values is preserved.
pub fn sort_counts(v: &mut Vec<usize>)
    ensures
        forall|k1: int, k2: int|
            0 <= k1 < k2 < final(v)@.len() ==> #[trigger] final(v)@[k1]
                <= #[trigger] final(v)@[k2],
        final(v)@.to_multiset() == old(v)@.to_multiset(),
{
    let ghost orig = v@;
    let mut out: Vec<usize> = Vec::new();
    while v.len() > 0
        invariant
            out@.to_multiset().add(v@.to_multiset()) =~= orig.to_multiset(),
            forall|k1: int, k2: int|
                0 <= k1 < k2 < out@.len() ==> #[trigger] out@[k1] <= #[trigger] out@[k2],
            forall|k: int, i: int|
                0 <= k < out@.len() && 0 <= i < v@.len() ==> #[trigger] out@[k]
                    <= #[trigger] v@[i],
        decreases v@.len(),
    {
        let mut mi: usize = 0;
        let mut i: usize = 1;
        while i < v.len()
            invariant
                v@.len() > 0,
                mi < i <= v@.len(),
                forall|k: int| 0 <= k < i ==> v@[mi as int] <= #[trigger] v@[k],
            decreases v@.len() - i,
        {
            if v[i] < v[mi] {
                mi = i;
            }
            i += 1;
        }
        let x = v.remove(mi);
        out.push(x);
        proof {
            assert(out@.to_multiset().add(v@.to_multiset()) =~= orig.to_multiset());
        }
    }
    proof {
        assert(v@.to_multiset() =~= Multiset::<usize>::empty());
        assert(out@.to_multiset().add(v@.to_multiset()) =~= out@.to_multiset());
    }
    *v = out;
}

} // verus!
