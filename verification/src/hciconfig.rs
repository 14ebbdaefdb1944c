//! Finding the HCI adapter index of a Bluetooth address in the text that
//! `hciconfig -a` prints.

use vstd::prelude::*;
use vstd::string::*;

pub use crate::text::{digits_value, leading_digits};

verus! {

/// BD address of the gateway's Realtek adapter.
pub const REALTEK_BD_ADDR: &'static str = "A0:AD:9F:71:13:98";

/// Pieces of `s` between newline characters (a trailing newline leaves an
/// empty last piece).
pub open spec fn split_newlines(s: Seq<char>) -> Seq<Seq<char>>
    decreases s.len(),
{
    if s.len() == 0 {
        seq![seq![]]
    } else {
        let pre = split_newlines(s.drop_last());
        if s.last() == '\n' {
            pre.push(seq![])
        } else {
            pre.update(pre.len() - 1, pre.last().push(s.last()))
        }
    }
}

proof fn lemma_split_newlines_nonempty(s: Seq<char>)
    ensures
        split_newlines(s).len() >= 1,
    decreases s.len(),
{
    if s.len() > 0 {
        lemma_split_newlines_nonempty(s.drop_last());
    }
}

/// A line without the carriage return of a `\r\n` ending.
pub open spec fn without_cr(l: Seq<char>) -> Seq<char> {
    if l.len() > 0 && l.last() == '\r' {
        l.drop_last()
    } else {
        l
    }
}

/// The lines of a text as `str::lines` yields them: split at `\n`, a `\r`
/// before the `\n` removed, no final empty line after a trailing newline.
pub open spec fn text_lines(s: Seq<char>) -> Seq<Seq<char>> {
    let p = split_newlines(s);
    let n = p.len();
    if p.last().len() == 0 {
        Seq::new((n - 1) as nat, |i: int| without_cr(p[i]))
    } else {
        Seq::new(n, |i: int| if i < n - 1 { without_cr(p[i]) } else { p[i] })
    }
}

/// A string of decimal digits parsed as a `usize`: `None` when it is empty
/// or too large.
pub open spec fn parse_index(d: Seq<char>) -> Option<usize> {
    if d.len() == 0 || digits_value(d) > usize::MAX {
        None
    } else {
        Some(digits_value(d) as usize)
    }
}

/// The line starts with `hci`.
pub open spec fn starts_with_hci(l: Seq<char>) -> bool {
    l.len() >= 3 && l[0] == 'h' && l[1] == 'c' && l[2] == 'i'
}

/// `a` occurs in `l`.
pub open spec fn contains_seq(l: Seq<char>, a: Seq<char>) -> bool {
    exists|k: int| 0 <= k <= l.len() - a.len() && #[trigger] l.subrange(k, k + a.len()) == a
}

/// The adapter index after reading line `l`: a line starting with `hci`
/// sets it to the number right after `hci` (nothing when there is none).
pub open spec fn index_after_line(l: Seq<char>, cur: Option<usize>) -> Option<usize> {
    if starts_with_hci(l) {
        parse_index(leading_digits(l.skip(3)))
    } else {
        cur
    }
}

/// Reading the lines in order: the first line that contains `addr` gives the
/// adapter index in force after reading it.
pub open spec fn scan_lines(lines: Seq<Seq<char>>, addr: Seq<char>, cur: Option<usize>) -> Option<
    usize,
>
    decreases lines.len(),
{
    if lines.len() == 0 {
        None
    } else {
        let c = index_after_line(lines[0], cur);
        if contains_seq(lines[0], addr) {
            c
        } else {
            scan_lines(lines.drop_first(), addr, c)
        }
    }
}

fn chars_of(s: &str) -> (r: Vec<char>)
    ensures
        r@ == s@,
{
    let n = s.unicode_len();
    let mut v: Vec<char> = Vec::new();
    let mut i: usize = 0;
    while i < n
        invariant
            0 <= i <= n,
            n == s@.len(),
            v@ == s@.subrange(0, i as int),
        decreases n - i,
    {
        v.push(s.get_char(i));
        proof {
            assert(v@ =~= s@.subrange(0, i + 1));
        }
        i = i + 1;
    }
    assert(s@.subrange(0, n as int) =~= s@);
    v
}

fn split_lines(s: &Vec<char>) -> (r: Vec<Vec<char>>)
    ensures
        r@.len() == split_newlines(s@).len(),
        forall|i: int| 0 <= i < r@.len() ==> (#[trigger] r@[i])@ == split_newlines(s@)[i],
{
    let mut done: Vec<Vec<char>> = Vec::new();
    let mut cur: Vec<char> = Vec::new();
    let mut i: usize = 0;
    while i < s.len()
        invariant
            0 <= i <= s@.len(),
            split_newlines(s@.subrange(0, i as int)).len() == done@.len() + 1,
            forall|k: int|
                0 <= k < done@.len() ==> (#[trigger] done@[k])@ == split_newlines(
                    s@.subrange(0, i as int),
                )[k],
            cur@ == split_newlines(s@.subrange(0, i as int)).last(),
        decreases s@.len() - i,
    {
        let c = s[i];
        proof {
            let post = s@.subrange(0, i + 1);
            assert(post.drop_last() =~= s@.subrange(0, i as int));
            assert(post.last() == c);
            lemma_split_newlines_nonempty(s@.subrange(0, i as int));
        }
        if c == '\n' {
            let mut finished: Vec<char> = Vec::new();
            std::mem::swap(&mut cur, &mut finished);
            done.push(finished);
        } else {
            cur.push(c);
        }
        i = i + 1;
    }
    assert(s@.subrange(0, s@.len() as int) =~= s@);
    done.push(cur);
    done
}

fn matches_at(l: &[char], a: &[char], k: usize) -> (r: bool)
    requires
        k + a@.len() <= l@.len(),
    ensures
        r == (l@.subrange(k as int, k + a@.len()) == a@),
{
    let ll = l.len();
    let mut m: usize = 0;
    while m < a.len()
        invariant
            0 <= m <= a@.len(),
            k + a@.len() <= l@.len(),
            ll == l@.len(),
            forall|t: int| 0 <= t < m ==> l@[k + t] == a@[t],
        decreases a@.len() - m,
    {
        if l[k + m] != a[m] {
            proof {
                assert(l@.subrange(k as int, k + a@.len())[m as int] == l@[k + m]);
            }
            return false;
        }
        m = m + 1;
    }
    assert(l@.subrange(k as int, k + a@.len()) =~= a@);
    true
}

fn contains_chars(l: &[char], a: &[char]) -> (r: bool)
    ensures
        r == contains_seq(l@, a@),
{
    if a.len() > l.len() {
        return false;
    }
    let last = l.len() - a.len();
    let mut k: usize = 0;
    while k < last
        invariant
            0 <= k <= last,
            last + a@.len() == l@.len(),
            forall|j: int| 0 <= j < k ==> #[trigger] l@.subrange(j, j + a@.len()) != a@,
        decreases last - k,
    {
        if matches_at(l, a, k) {
            return true;
        }
        k = k + 1;
    }
    let found = matches_at(l, a, last);
    proof {
        if contains_seq(l@, a@) && !found {
            let j = choose|j: int|
                0 <= j <= l@.len() - a@.len() && #[trigger] l@.subrange(j, j + a@.len()) == a@;
            assert(l@.subrange(j, j + a@.len()) != a@);
        }
    }
    found
}

proof fn lemma_leading_digits_step(s: Seq<char>, i: int)
    requires
        0 <= i < s.len(),
        forall|t: int| 0 <= t < i ==> '0' <= #[trigger] s[t] <= '9',
    ensures
        leading_digits(s) == s.subrange(0, i) + leading_digits(s.skip(i)),
    decreases i,
{
    if i > 0 {
        lemma_leading_digits_step(s.drop_first(), i - 1);
        assert(s.drop_first().subrange(0, i - 1) =~= s.subrange(1, i));
        assert(s.drop_first().skip(i - 1) =~= s.skip(i));
        assert(s.subrange(0, i) =~= seq![s[0]] + s.subrange(1, i));
    } else {
        assert(s.skip(0) =~= s);
    }
}

fn line_index(l: &[char], cur: Option<usize>) -> (r: Option<usize>)
    ensures
        r == index_after_line(l@, cur),
{
    if !(l.len() >= 3 && l[0] == 'h' && l[1] == 'c' && l[2] == 'i') {
        return cur;
    }
    let ghost rest = l@.skip(3);
    let mut i: usize = 3;
    let mut val: usize = 0;
    let mut overflow = false;
    while i < l.len() && '0' <= l[i] && l[i] <= '9'
        invariant
            3 <= i <= l@.len(),
            rest == l@.skip(3),
            forall|t: int| 3 <= t < i ==> '0' <= #[trigger] l@[t] <= '9',
            !overflow ==> val == digits_value(l@.subrange(3, i as int)),
            overflow ==> digits_value(l@.subrange(3, i as int)) > usize::MAX,
        decreases l@.len() - i,
    {
        let d = (l[i] as u32 - 48) as usize;
        proof {
            let pre = l@.subrange(3, i as int);
            let post = l@.subrange(3, i + 1);
            assert(post.drop_last() =~= pre);
        }
        if !overflow {
            if val > (usize::MAX - d) / 10 {
                overflow = true;
            } else {
                val = val * 10 + d;
            }
        }
        i = i + 1;
    }
    proof {
        let digits = l@.subrange(3, i as int);
        if i < l@.len() {
            lemma_leading_digits_step(rest, i - 3);
            assert(rest.subrange(0, i - 3) =~= digits);
            assert(rest.skip(i - 3)[0] == l@[i as int]);
            assert(leading_digits(rest.skip(i - 3)) == Seq::<char>::empty());
            assert(leading_digits(rest) =~= digits);
        } else {
            if i > 3 {
                lemma_leading_digits_step(rest, i - 4);
                let tail = rest.skip(i - 4);
                assert(tail =~= seq![l@[i - 1]]);
                assert(tail.drop_first() =~= Seq::<char>::empty());
                assert(leading_digits(tail.drop_first()) == Seq::<char>::empty());
                assert(leading_digits(tail) =~= seq![l@[i - 1]]);
                assert(rest.subrange(0, i - 4) + seq![l@[i - 1]] =~= digits);
                assert(leading_digits(rest) =~= digits);
            } else {
                assert(rest =~= Seq::<char>::empty());
                assert(leading_digits(rest) =~= digits);
            }
        }
    }
    if i == 3 || overflow {
        None
    } else {
        Some(val)
    }
}

/// The adapter index of `bd_addr` in `hciconfig -a` output: the number after
/// `hci` on the last adapter header line read before the first line that
/// contains the address; `None` when no line contains it.
pub fn hci_index_for_address(text: &str, bd_addr: &str) -> (r: Option<usize>)
    ensures
        r == scan_lines(text_lines(text@), bd_addr@, None),
{
    let chars = chars_of(text);
    let addr = chars_of(bd_addr);
    let pieces = split_lines(&chars);
    let ghost p = split_newlines(text@);
    proof {
        lemma_split_newlines_nonempty(text@);
    }
    let n = pieces.len();
    let count = if pieces[n - 1].len() == 0 {
        n - 1
    } else {
        n
    };
    let ghost lines = text_lines(text@);
    assert(lines.len() == count);
    let mut cur: Option<usize> = None;
    let mut i: usize = 0;
    assert(lines.skip(0) =~= lines);
    while i < count
        invariant
            0 <= i <= count,
            count <= n,
            n == pieces@.len(),
            n == p.len(),
            lines.len() == count,
            lines == text_lines(text@),
            p == split_newlines(text@),
            addr@ == bd_addr@,
            forall|k: int| 0 <= k < n ==> (#[trigger] pieces@[k])@ == p[k],
            scan_lines(lines, bd_addr@, None) == scan_lines(lines.skip(i as int), bd_addr@, cur),
        decreases count - i,
    {
        let piece: &[char] = pieces[i].as_slice();
        let end = if i < n - 1 && piece.len() > 0 && piece[piece.len() - 1] == '\r' {
            piece.len() - 1
        } else {
            piece.len()
        };
        let line = &piece[0..end];
        proof {
            assert(line@ =~= lines[i as int]);
            assert(lines.skip(i as int)[0] == lines[i as int]);
            assert(lines.skip(i as int).drop_first() =~= lines.skip(i + 1));
        }
        let next = line_index(line, cur);
        if contains_chars(line, addr.as_slice()) {
            return next;
        }
        cur = next;
        i = i + 1;
    }
    None
}

} // verus!
