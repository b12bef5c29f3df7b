use vstd::prelude::*;

verus! {

use vstd::string::StrSliceExecFns;
use vstd::string::StringExecFns;

/// `n` copies of the character `c`.
pub open spec fn char_repeat(c: char, n: nat) -> Seq<char> {
    Seq::new(n, |i: int| c)
}

/// The views of a sequence of owned strings.
pub open spec fn views_of(v: Seq<String>) -> Seq<Seq<char>> {
    v.map_values(|s: String| s@)
}

/// Split `s` at every line break. The result always has one part more than
/// the number of breaks, so an empty text is one empty part.
pub open spec fn split_on_breaks(s: Seq<char>) -> Seq<Seq<char>>
    decreases s.len(),
{
    if s.len() == 0 {
        seq![Seq::<char>::empty()]
    } else if s[0] == '\n' {
        seq![Seq::<char>::empty()] + split_on_breaks(s.skip(1))
    } else {
        let rest = split_on_breaks(s.skip(1));
        seq![seq![s[0]] + rest[0]] + rest.skip(1)
    }
}

/// The lines of a text: the parts between line breaks, except that a final
/// empty part after a trailing break is dropped. An empty text still has one
/// (empty) line.
pub open spec fn lines_of(s: Seq<char>) -> Seq<Seq<char>> {
    let parts = split_on_breaks(s);
    if parts.len() > 1 && parts.last().len() == 0 {
        parts.drop_last()
    } else {
        parts
    }
}

proof fn lemma_split_no_break(t: Seq<char>)
    requires
        forall|j: int| 0 <= j < t.len() ==> t[j] != '\n',
    ensures
        split_on_breaks(t) == seq![t],
    decreases t.len(),
{
    if t.len() == 0 {
        assert(split_on_breaks(t) =~~= seq![t]);
    } else {
        lemma_split_no_break(t.skip(1));
        assert(seq![t[0]] + t.skip(1) =~= t);
        assert(split_on_breaks(t) =~~= seq![t]);
    }
}

proof fn lemma_split_at_break(t: Seq<char>, k: int)
    requires
        0 <= k < t.len(),
        t[k] == '\n',
        forall|j: int| 0 <= j < k ==> t[j] != '\n',
    ensures
        split_on_breaks(t) == seq![t.take(k)] + split_on_breaks(t.skip(k + 1)),
    decreases k,
{
    if k == 0 {
        assert(t.take(0) =~= Seq::<char>::empty());
        assert(split_on_breaks(t) =~~= seq![t.take(0)] + split_on_breaks(t.skip(1)));
    } else {
        let u = t.skip(1);
        assert(u[k - 1] == t[k]);
        assert(forall|j: int| 0 <= j < k - 1 ==> u[j] == t[j + 1] && u[j] != '\n');
        lemma_split_at_break(u, k - 1);
        let rest = split_on_breaks(u);
        assert(rest[0] == u.take(k - 1));
        assert(seq![t[0]] + u.take(k - 1) =~= t.take(k));
        assert(rest.skip(1) =~~= split_on_breaks(u.skip(k)));
        assert(u.skip(k) =~= t.skip(k + 1));
        assert(split_on_breaks(t) =~~= seq![t.take(k)] + split_on_breaks(t.skip(k + 1)));
    }
}

/// Splits a text into its lines: the parts between line breaks, with a final
/// empty part after a trailing break dropped.
pub fn split_lines(s: &str) -> (r: Vec<String>)
    ensures
        views_of(r@) == lines_of(s@),
{
    let n = s.unicode_len();
    let mut parts: Vec<String> = Vec::new();
    let mut start: usize = 0;
    let mut i: usize = 0;
    proof {
        assert(s@.skip(0) =~= s@);
        assert(views_of(parts@) + split_on_breaks(s@) =~= split_on_breaks(s@));
    }
    while i < n
        invariant
            n == s@.len(),
            start <= i <= n,
            split_on_breaks(s@) == views_of(parts@) + split_on_breaks(s@.skip(start as int)),
            forall|j: int| start <= j < i ==> s@[j] != '\n',
        decreases n - i,
    {
        let c = s.get_char(i);
        if c == '\n' {
            let ghost old_parts = parts@;
            let seg = s.substring_char(start, i).to_owned();
            parts.push(seg);
            proof {
                let tail = s@.skip(start as int);
                assert(forall|j: int| 0 <= j < i - start ==> tail[j] == s@[j + start] && tail[j]
                    != '\n');
                lemma_split_at_break(tail, i - start);
                assert(tail.take(i - start) =~= s@.subrange(start as int, i as int));
                assert(tail.skip(i - start + 1) =~= s@.skip(i + 1));
                assert(views_of(parts@) =~~= views_of(old_parts) + seq![s@.subrange(
                    start as int,
                    i as int,
                )]);
                assert(split_on_breaks(s@) =~~= views_of(parts@) + split_on_breaks(s@.skip(i + 1)));
            }
            start = i + 1;
        }
        i = i + 1;
    }
    let ghost old_parts = parts@;
    let seg = s.substring_char(start, n).to_owned();
    parts.push(seg);
    proof {
        let tail = s@.skip(start as int);
        assert(forall|j: int| 0 <= j < tail.len() ==> tail[j] == s@[j + start] && tail[j] != '\n');
        lemma_split_no_break(tail);
        assert(tail =~= s@.subrange(start as int, n as int));
        assert(views_of(parts@) =~~= views_of(old_parts) + seq![tail]);
        assert(split_on_breaks(s@) =~~= views_of(parts@));
    }
    if parts.len() > 1 {
        let last = parts.len() - 1;
        if parts[last].as_str().unicode_len() == 0 {
            let ghost before = parts@;
            parts.pop();
            proof {
                assert(views_of(before).last().len() == 0);
                assert(views_of(parts@) =~~= views_of(before).drop_last());
            }
        } else {
            proof {
                assert(views_of(parts@).last().len() != 0);
            }
        }
    }
    parts
}

/// Character-for-character equality of two text slices.
pub fn str_eq(a: &str, b: &str) -> (r: bool)
    ensures
        r == (a@ == b@),
{
    let n = a.unicode_len();
    if n != b.unicode_len() {
        return false;
    }
    let mut i: usize = 0;
    while i < n
        invariant
            n == a@.len(),
            n == b@.len(),
            i <= n,
            forall|j: int| 0 <= j < i ==> a@[j] == b@[j],
        decreases n - i,
    {
        if a.get_char(i) != b.get_char(i) {
            return false;
        }
        i = i + 1;
    }
    proof {
        assert(a@ =~= b@);
    }
    true
}

/// The decimal digit character for `d`.
pub open spec fn digit_char(d: int) -> char {
    if d == 0 {
        '0'
    } else if d == 1 {
        '1'
    } else if d == 2 {
        '2'
    } else if d == 3 {
        '3'
    } else if d == 4 {
        '4'
    } else if d == 5 {
        '5'
    } else if d == 6 {
        '6'
    } else if d == 7 {
        '7'
    } else if d == 8 {
        '8'
    } else {
        '9'
    }
}

/// The decimal digits of `n`, most significant first, with no sign and no
/// leading zero except for zero itself.
pub open spec fn dec_digits(n: nat) -> Seq<char>
    decreases n,
{
    if n < 10 {
        seq![digit_char(n as int)]
    } else {
        dec_digits(n / 10) + seq![digit_char((n % 10) as int)]
    }
}

/// The canonical decimal text of an integer: a minus sign for negative
/// values, then the decimal digits.
pub open spec fn int_text(v: int) -> Seq<char> {
    if v < 0 {
        seq!['-'] + dec_digits((-v) as nat)
    } else {
        dec_digits(v as nat)
    }
}

fn digit_str(d: u64) -> (c: &'static str)
    requires
        d < 10,
    ensures
        c@ == seq![digit_char(d as int)],
{
    let r = if d == 0 {
        "0"
    } else if d == 1 {
        "1"
    } else if d == 2 {
        "2"
    } else if d == 3 {
        "3"
    } else if d == 4 {
        "4"
    } else if d == 5 {
        "5"
    } else if d == 6 {
        "6"
    } else if d == 7 {
        "7"
    } else if d == 8 {
        "8"
    } else {
        "9"
    };
    proof {
        reveal_strlit("0");
        reveal_strlit("1");
        reveal_strlit("2");
        reveal_strlit("3");
        reveal_strlit("4");
        reveal_strlit("5");
        reveal_strlit("6");
        reveal_strlit("7");
        reveal_strlit("8");
        reveal_strlit("9");
        assert(r@ =~= seq![digit_char(d as int)]);
    }
    r
}

/// Renders an unsigned value in decimal.
pub fn u64_text(m: u64) -> (s: String)
    ensures
        s@ == dec_digits(m as nat),
{
    if m < 10 {
        let s = digit_str(m).to_owned();
        return s;
    }
    let mut cur: u64 = m;
    let mut s = String::new();
    proof {
        assert(dec_digits(m as nat) + s@ =~= dec_digits(m as nat));
    }
    while cur > 0
        invariant
            cur > 0 ==> dec_digits(m as nat) == dec_digits(cur as nat) + s@,
            cur == 0 ==> dec_digits(m as nat) == s@,
        decreases cur,
    {
        let ghost prev = s@;
        let ghost c = cur as nat;
        let d = digit_str(cur % 10);
        let t = String::from_str(d).concat(s.as_str());
        s = t;
        proof {
            assert(s@ == seq![digit_char((c % 10) as int)] + prev);
            if c >= 10 {
                assert(dec_digits(c) == dec_digits(c / 10) + seq![digit_char((c % 10) as int)]);
                assert(dec_digits(c / 10) + s@ =~= dec_digits(c) + prev);
            } else {
                assert(dec_digits(c) == seq![digit_char(c as int)]);
                assert(c % 10 == c);
                assert(dec_digits(c) + prev =~= s@);
            }
        }
        cur = cur / 10;
    }
    s
}

/// Renders a signed value in canonical decimal, with a leading minus sign
/// when it is negative.
pub fn i64_text(v: i64) -> (s: String)
    ensures
        s@ == int_text(v as int),
{
    if v >= 0 {
        u64_text(v as u64)
    } else {
        let wide: i128 = -(v as i128);
        let m: u64 = wide as u64;
        proof {
            assert(m as nat == (-(v as int)) as nat);
        }
        let digits = u64_text(m);
        let s = String::from_str("-").concat(digits.as_str());
        proof {
            reveal_strlit("-");
            assert(s@ =~= int_text(v as int));
        }
        s
    }
}

} // verus!
