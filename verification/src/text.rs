//! Character-level text utilities: whitespace classification, splitting into
//! lines, trimming, joining, and decimal rendering of counters. All operate
//! on `Vec<char>` so that every step is verified against a sequence model.

use vstd::prelude::*;

verus! {

/// The Unicode `White_Space` set, as `char::is_whitespace` recognizes it.
pub open spec fn is_ws(c: char) -> bool {
    c == ' ' || c == '\t' || c == '\n' || c == '\r' || c == '\u{000B}' || c == '\u{000C}'
        || c == '\u{0085}' || c == '\u{00A0}' || c == '\u{1680}' || (0x2000 <= c as int
        && c as int <= 0x200A) || c == '\u{2028}' || c == '\u{2029}' || c == '\u{202F}'
        || c == '\u{205F}' || c == '\u{3000}'
}

/// A line is visible when some character of it is not whitespace; only such
/// lines survive line-based chunking.
pub open spec fn has_visible(l: Seq<char>) -> bool {
    exists|i: int| 0 <= i < l.len() && !is_ws(l[i])
}

pub fn is_ws_exec(c: char) -> (r: bool)
    ensures
        r == is_ws(c),
{
    let u = c as u32;
    c == ' ' || c == '\t' || c == '\n' || c == '\r' || c == '\u{000B}' || c == '\u{000C}'
        || c == '\u{0085}' || c == '\u{00A0}' || c == '\u{1680}' || (0x2000 <= u && u <= 0x200A)
        || c == '\u{2028}' || c == '\u{2029}' || c == '\u{202F}' || c == '\u{205F}'
        || c == '\u{3000}'
}

pub fn line_has_visible(l: &Vec<char>) -> (r: bool)
    ensures
        r == has_visible(l@),
{
    let mut i: usize = 0;
    while i < l.len()
        invariant
            0 <= i <= l@.len(),
            forall|j: int| 0 <= j < i ==> is_ws(l@[j]),
        decreases l@.len() - i,
    {
        if !is_ws_exec(l[i]) {
            return true;
        }
        i = i + 1;
    }
    false
}

/// Index of the first occurrence of `sep` in `s`, or `s.len()` if absent.
pub open spec fn find_ch(s: Seq<char>, sep: char) -> int
    decreases s.len(),
{
    if s.len() == 0 {
        0
    } else if s[0] == sep {
        0
    } else {
        1 + find_ch(s.drop_first(), sep)
    }
}

pub proof fn lemma_find_ch(s: Seq<char>, sep: char)
    ensures
        0 <= find_ch(s, sep) <= s.len(),
        find_ch(s, sep) < s.len() ==> s[find_ch(s, sep)] == sep,
        forall|j: int| 0 <= j < find_ch(s, sep) ==> s[j] != sep,
    decreases s.len(),
{
    if s.len() > 0 && s[0] != sep {
        lemma_find_ch(s.drop_first(), sep);
        assert forall|j: int| 0 <= j < find_ch(s, sep) implies s[j] != sep by {
            if j > 0 {
                assert(s.drop_first()[j - 1] != sep);
            }
        }
    }
}

/// `find_ch` is pinned by any witness index with no earlier occurrence.
pub proof fn lemma_find_ch_at(s: Seq<char>, sep: char, i: int)
    requires
        0 <= i < s.len(),
        s[i] == sep,
        forall|j: int| 0 <= j < i ==> s[j] != sep,
    ensures
        find_ch(s, sep) == i,
{
    lemma_find_ch(s, sep);
    let f = find_ch(s, sep);
    if f < i {
        assert(s[f] != sep);
    }
}

/// The segments of `s` between occurrences of `sep`; always non-empty, and
/// `sep` itself appears in no segment.
pub open spec fn split_on(s: Seq<char>, sep: char) -> Seq<Seq<char>>
    decreases s.len(),
{
    let i = find_ch(s, sep);
    if 0 <= i && i < s.len() {
        seq![s.take(i)] + split_on(s.skip(i + 1), sep)
    } else {
        seq![s]
    }
}

pub proof fn lemma_split_on_len(s: Seq<char>, sep: char)
    ensures
        1 <= split_on(s, sep).len() <= s.len() + 1,
    decreases s.len(),
{
    lemma_find_ch(s, sep);
    let i = find_ch(s, sep);
    if 0 <= i && i < s.len() {
        lemma_split_on_len(s.skip(i + 1), sep);
    }
}

/// Unfolding step: a separator at `i` with none before it splits off the
/// prefix `s.take(i)`.
pub proof fn lemma_split_on_step(s: Seq<char>, sep: char, i: int)
    requires
        0 <= i < s.len(),
        s[i] == sep,
        forall|j: int| 0 <= j < i ==> s[j] != sep,
    ensures
        split_on(s, sep) == seq![s.take(i)] + split_on(s.skip(i + 1), sep),
{
    lemma_find_ch_at(s, sep, i);
}

/// A separator-free string is a single segment.
pub proof fn lemma_split_on_none(s: Seq<char>, sep: char)
    requires
        forall|j: int| 0 <= j < s.len() ==> s[j] != sep,
    ensures
        split_on(s, sep) == seq![s],
{
    lemma_find_ch(s, sep);
    let i = find_ch(s, sep);
    if 0 <= i && i < s.len() {
        assert(s[i] != sep);
    }
}

pub fn split_chars(text: &Vec<char>, sep: char) -> (out: Vec<Vec<char>>)
    ensures
        out@.map_values(|v: Vec<char>| v@) == split_on(text@, sep),
{
    let mut out: Vec<Vec<char>> = Vec::new();
    let mut cur: Vec<char> = Vec::new();
    let ghost mut raw_done: Seq<Seq<char>> = Seq::empty();
    let mut seg_start: usize = 0;
    let mut pos: usize = 0;
    proof {
        assert(text@.skip(0) =~= text@);
        assert(raw_done + split_on(text@, sep) =~= split_on(text@, sep));
        assert(cur@ =~= text@.subrange(0, 0));
    }
    while pos < text.len()
        invariant
            0 <= seg_start <= pos <= text@.len(),
            cur@ == text@.subrange(seg_start as int, pos as int),
            forall|j: int| seg_start <= j < pos ==> text@[j] != sep,
            split_on(text@, sep) == raw_done + split_on(text@.skip(seg_start as int), sep),
            out@.len() == raw_done.len(),
            forall|i: int| 0 <= i < out@.len() ==> out@[i]@ == #[trigger] raw_done[i],
        decreases text@.len() - pos,
    {
        let c = text[pos];
        if c == sep {
            proof {
                let rem = text@.skip(seg_start as int);
                let k = pos - seg_start;
                assert(rem[k as int] == sep);
                assert forall|j: int| 0 <= j < k implies rem[j] != sep by {
                    assert(text@[seg_start + j] != sep);
                }
                lemma_split_on_step(rem, sep, k as int);
                assert(rem.take(k as int) =~= cur@);
                assert(rem.skip(k + 1) =~= text@.skip(pos + 1));
                let old_raw = raw_done;
                raw_done = raw_done.push(cur@);
                assert(raw_done + split_on(text@.skip(pos + 1), sep) =~= old_raw + (seq![cur@]
                    + split_on(text@.skip(pos + 1), sep)));
            }
            out.push(cur);
            cur = Vec::new();
            seg_start = pos + 1;
            proof {
                assert(cur@ =~= text@.subrange(pos + 1, pos + 1));
            }
        } else {
            cur.push(c);
            proof {
                assert(cur@ =~= text@.subrange(seg_start as int, pos + 1));
            }
        }
        pos = pos + 1;
    }
    proof {
        let rem = text@.skip(seg_start as int);
        assert forall|j: int| 0 <= j < rem.len() implies rem[j] != sep by {
            assert(text@[seg_start + j] != sep);
        }
        lemma_split_on_none(rem, sep);
        assert(rem =~= cur@);
    }
    out.push(cur);
    proof {
        assert(out@.map_values(|v: Vec<char>| v@) =~= split_on(text@, sep));
    }
    out
}

/// Index of the last occurrence of `ch` in `s`, or `-1` if absent.
pub open spec fn rfind_ch(s: Seq<char>, ch: char) -> int
    decreases s.len(),
{
    if s.len() == 0 {
        -1
    } else if s[s.len() - 1] == ch {
        s.len() - 1
    } else {
        rfind_ch(s.drop_last(), ch)
    }
}

/// One trailing carriage return is dropped, as `str::lines` drops it from a
/// newline-terminated line.
pub open spec fn strip_cr(l: Seq<char>) -> Seq<char> {
    if l.len() > 0 && l[l.len() - 1] == '\r' {
        l.drop_last()
    } else {
        l
    }
}

/// The lines of `s` under `str::lines` semantics: split on `'\n'`, strip one
/// `'\r'` from each newline-terminated line, and drop a final empty segment.
pub open spec fn lines_of(s: Seq<char>) -> Seq<Seq<char>> {
    let segs = split_on(s, '\n');
    if segs.last().len() == 0 {
        segs.drop_last().map_values(|l: Seq<char>| strip_cr(l))
    } else {
        segs.drop_last().map_values(|l: Seq<char>| strip_cr(l)).push(segs.last())
    }
}

pub fn split_lines(text: &Vec<char>) -> (out: Vec<Vec<char>>)
    ensures
        out@.map_values(|v: Vec<char>| v@) == lines_of(text@),
{
    let mut out: Vec<Vec<char>> = Vec::new();
    let mut cur: Vec<char> = Vec::new();
    let ghost mut raw_done: Seq<Seq<char>> = Seq::empty();
    let mut seg_start: usize = 0;
    let mut pos: usize = 0;
    proof {
        assert(text@.skip(0) =~= text@);
        assert(raw_done + split_on(text@, '\n') =~= split_on(text@, '\n'));
        assert(cur@ =~= text@.subrange(0, 0));
    }
    while pos < text.len()
        invariant
            0 <= seg_start <= pos <= text@.len(),
            cur@ == text@.subrange(seg_start as int, pos as int),
            forall|j: int| seg_start <= j < pos ==> text@[j] != '\n',
            split_on(text@, '\n') == raw_done + split_on(text@.skip(seg_start as int), '\n'),
            out@.len() == raw_done.len(),
            forall|i: int| 0 <= i < out@.len() ==> out@[i]@ == strip_cr(#[trigger] raw_done[i]),
        decreases text@.len() - pos,
    {
        let c = text[pos];
        if c == '\n' {
            proof {
                let rem = text@.skip(seg_start as int);
                let k = pos - seg_start;
                assert(rem[k as int] == '\n');
                assert forall|j: int| 0 <= j < k implies rem[j] != '\n' by {
                    assert(text@[seg_start + j] != '\n');
                }
                lemma_split_on_step(rem, '\n', k as int);
                assert(rem.take(k as int) =~= cur@);
                assert(rem.skip(k + 1) =~= text@.skip(pos + 1));
            }
            if cur.len() > 0 && cur[cur.len() - 1] == '\r' {
                cur.pop();
            }
            proof {
                let old_raw = raw_done;
                raw_done = raw_done.push(text@.subrange(seg_start as int, pos as int));
                assert(cur@ == strip_cr(raw_done.last()));
                assert(raw_done + split_on(text@.skip(pos + 1), '\n') =~= old_raw + (seq![
                    text@.subrange(seg_start as int, pos as int),
                ] + split_on(text@.skip(pos + 1), '\n')));
            }
            out.push(cur);
            cur = Vec::new();
            seg_start = pos + 1;
            proof {
                assert(cur@ =~= text@.subrange(pos + 1, pos + 1));
            }
        } else {
            cur.push(c);
            proof {
                assert(cur@ =~= text@.subrange(seg_start as int, pos + 1));
            }
        }
        pos = pos + 1;
    }
    proof {
        let rem = text@.skip(seg_start as int);
        assert forall|j: int| 0 <= j < rem.len() implies rem[j] != '\n' by {
            assert(text@[seg_start + j] != '\n');
        }
        lemma_split_on_none(rem, '\n');
        assert(rem =~= cur@);
        let segs = split_on(text@, '\n');
        assert(segs == raw_done + seq![cur@]);
        assert(segs.last() == cur@);
        assert(segs.drop_last() =~= raw_done);
    }
    if cur.len() > 0 {
        out.push(cur);
        proof {
            assert(out@.map_values(|v: Vec<char>| v@) =~= lines_of(text@));
        }
        out
    } else {
        proof {
            assert(out@.map_values(|v: Vec<char>| v@) =~= lines_of(text@));
        }
        out
    }
}

/// `l` without its leading whitespace.
pub open spec fn trim_start_spec(l: Seq<char>) -> Seq<char>
    decreases l.len(),
{
    if l.len() > 0 && is_ws(l[0]) {
        trim_start_spec(l.drop_first())
    } else {
        l
    }
}

/// `l` without its trailing whitespace.
pub open spec fn trim_end_spec(l: Seq<char>) -> Seq<char>
    decreases l.len(),
{
    if l.len() > 0 && is_ws(l[l.len() - 1]) {
        trim_end_spec(l.drop_last())
    } else {
        l
    }
}

/// `l` without leading and trailing whitespace, as `str::trim` leaves it.
pub open spec fn trim_spec(l: Seq<char>) -> Seq<char> {
    trim_end_spec(trim_start_spec(l))
}

pub fn trim_chars(l: &Vec<char>) -> (r: Vec<char>)
    ensures
        r@ == trim_spec(l@),
{
    let mut a: usize = 0;
    proof {
        assert(l@.skip(0) =~= l@);
    }
    while a < l.len() && is_ws_exec(l[a])
        invariant
            0 <= a <= l@.len(),
            trim_start_spec(l@) == trim_start_spec(l@.skip(a as int)),
        decreases l@.len() - a,
    {
        proof {
            let s = l@.skip(a as int);
            assert(s[0] == l@[a as int]);
            assert(s.drop_first() =~= l@.skip(a + 1));
        }
        a = a + 1;
    }
    proof {
        let s = l@.skip(a as int);
        if s.len() > 0 {
            assert(s[0] == l@[a as int]);
        }
        assert(trim_start_spec(s) == s);
    }
    let mut b: usize = l.len();
    while b > a && is_ws_exec(l[b - 1])
        invariant
            a <= b <= l@.len(),
            trim_start_spec(l@) == trim_start_spec(l@.skip(a as int)),
            trim_start_spec(l@.skip(a as int)) == l@.skip(a as int),
            trim_end_spec(l@.subrange(a as int, l@.len() as int)) == trim_end_spec(
                l@.subrange(a as int, b as int),
            ),
        decreases b,
    {
        proof {
            let s = l@.subrange(a as int, b as int);
            assert(s[s.len() - 1] == l@[b - 1]);
            assert(s.drop_last() =~= l@.subrange(a as int, b - 1));
        }
        b = b - 1;
    }
    proof {
        let s = l@.subrange(a as int, b as int);
        if s.len() > 0 {
            assert(s[s.len() - 1] == l@[b - 1]);
            assert(!is_ws(s[s.len() - 1]));
        }
        assert(trim_end_spec(s) == s);
        assert(l@.skip(a as int) =~= l@.subrange(a as int, l@.len() as int));
    }
    let mut r: Vec<char> = Vec::new();
    let mut j: usize = a;
    while j < b
        invariant
            a <= j <= b <= l@.len(),
            r@ == l@.subrange(a as int, j as int),
        decreases b - j,
    {
        r.push(l[j]);
        proof {
            assert(r@ =~= l@.subrange(a as int, j + 1));
        }
        j = j + 1;
    }
    proof {
        assert(r@ == trim_spec(l@));
    }
    r
}

/// The lines joined by single `'\n'` characters, with no trailing newline.
pub open spec fn join_nl(ls: Seq<Seq<char>>) -> Seq<char>
    decreases ls.len(),
{
    if ls.len() == 0 {
        Seq::empty()
    } else if ls.len() == 1 {
        ls[0]
    } else {
        join_nl(ls.drop_last()) + seq!['\n'] + ls.last()
    }
}

pub fn join_lines(ls: &Vec<Vec<char>>) -> (r: Vec<char>)
    ensures
        r@ == join_nl(ls@.map_values(|v: Vec<char>| v@)),
{
    let ghost m = ls@.map_values(|v: Vec<char>| v@);
    let mut r: Vec<char> = Vec::new();
    let mut i: usize = 0;
    proof {
        assert(r@ =~= join_nl(m.take(0)));
    }
    while i < ls.len()
        invariant
            0 <= i <= ls@.len(),
            m == ls@.map_values(|v: Vec<char>| v@),
            r@ == join_nl(m.take(i as int)),
        decreases ls@.len() - i,
    {
        if i > 0 {
            r.push('\n');
        }
        let line = &ls[i];
        let mut k: usize = 0;
        let ghost r_mid = r@;
        while k < line.len()
            invariant
                0 <= k <= line@.len(),
                r@ == r_mid + line@.take(k as int),
            decreases line@.len() - k,
        {
            r.push(line[k]);
            proof {
                assert(r_mid + line@.take(k + 1) =~= (r_mid + line@.take(k as int)).push(
                    line@[k as int],
                ));
            }
            k = k + 1;
        }
        proof {
            let t1 = m.take(i + 1);
            assert(t1.drop_last() =~= m.take(i as int));
            assert(t1.last() == m[i as int]);
            assert(line@.take(line@.len() as int) =~= line@);
            if i == 0 {
                assert(join_nl(t1) == m[0]);
                assert(r@ =~= join_nl(t1));
            } else {
                assert(join_nl(t1) == join_nl(m.take(i as int)) + seq!['\n'] + m[i as int]);
                assert(r@ =~= join_nl(t1));
            }
        }
        i = i + 1;
    }
    proof {
        assert(m.take(m.len() as int) =~= m);
    }
    r
}

/// Every byte lies in the ASCII range.
pub open spec fn is_ascii_bytes(b: Seq<u8>) -> bool {
    forall|i: int| 0 <= i < b.len() ==> b[i] < 128
}

/// `s` is the character-for-character reading of the ASCII bytes `b`.
pub open spec fn decodes_ascii(b: Seq<u8>, s: Seq<char>) -> bool {
    s.len() == b.len() && (forall|i: int| 0 <= i < b.len() ==> s[i] as int == b[i] as int)
}

/// Every character lies in the ASCII range.
pub open spec fn is_ascii_seq(s: Seq<char>) -> bool {
    forall|i: int| 0 <= i < s.len() ==> (s[i] as int) < 128
}

/// The ASCII upper-case form of `c`: letters `a ..= z` map to `A ..= Z`,
/// everything else is unchanged.
pub open spec fn ascii_upper(c: char) -> char {
    if c == 'a' { 'A' } else if c == 'b' { 'B' } else if c == 'c' { 'C' }
    else if c == 'd' { 'D' } else if c == 'e' { 'E' } else if c == 'f' { 'F' }
    else if c == 'g' { 'G' } else if c == 'h' { 'H' } else if c == 'i' { 'I' }
    else if c == 'j' { 'J' } else if c == 'k' { 'K' } else if c == 'l' { 'L' }
    else if c == 'm' { 'M' } else if c == 'n' { 'N' } else if c == 'o' { 'O' }
    else if c == 'p' { 'P' } else if c == 'q' { 'Q' } else if c == 'r' { 'R' }
    else if c == 's' { 'S' } else if c == 't' { 'T' } else if c == 'u' { 'U' }
    else if c == 'v' { 'V' } else if c == 'w' { 'W' } else if c == 'x' { 'X' }
    else if c == 'y' { 'Y' } else if c == 'z' { 'Z' } else { c }
}

/// The ASCII lower-case form of `c`: letters `A ..= Z` map to `a ..= z`,
/// everything else is unchanged.
pub open spec fn ascii_lower(c: char) -> char {
    if c == 'A' { 'a' } else if c == 'B' { 'b' } else if c == 'C' { 'c' }
    else if c == 'D' { 'd' } else if c == 'E' { 'e' } else if c == 'F' { 'f' }
    else if c == 'G' { 'g' } else if c == 'H' { 'h' } else if c == 'I' { 'i' }
    else if c == 'J' { 'j' } else if c == 'K' { 'k' } else if c == 'L' { 'l' }
    else if c == 'M' { 'm' } else if c == 'N' { 'n' } else if c == 'O' { 'o' }
    else if c == 'P' { 'p' } else if c == 'Q' { 'q' } else if c == 'R' { 'r' }
    else if c == 'S' { 's' } else if c == 'T' { 't' } else if c == 'U' { 'u' }
    else if c == 'V' { 'v' } else if c == 'W' { 'w' } else if c == 'X' { 'x' }
    else if c == 'Y' { 'y' } else if c == 'Z' { 'z' } else { c }
}

/// The decimal digit character for `n` in `0 ..= 9`.
pub open spec fn dec_digit(n: int) -> char {
    if n == 0 {
        '0'
    } else if n == 1 {
        '1'
    } else if n == 2 {
        '2'
    } else if n == 3 {
        '3'
    } else if n == 4 {
        '4'
    } else if n == 5 {
        '5'
    } else if n == 6 {
        '6'
    } else if n == 7 {
        '7'
    } else if n == 8 {
        '8'
    } else {
        '9'
    }
}

/// The usual decimal rendering of `n`, most significant digit first, with no
/// leading zeros (except for `n == 0` itself).
pub open spec fn dec_str(n: int) -> Seq<char>
    decreases n,
{
    if n <= 9 {
        seq![dec_digit(n)]
    } else {
        dec_str(n / 10).push(dec_digit(n % 10))
    }
}

fn dec_digit_exec(n: u64) -> (c: char)
    requires
        n <= 9,
    ensures
        c == dec_digit(n as int),
{
    match n {
        0 => '0',
        1 => '1',
        2 => '2',
        3 => '3',
        4 => '4',
        5 => '5',
        6 => '6',
        7 => '7',
        8 => '8',
        _ => '9',
    }
}

pub fn u64_to_dec_chars(n: u64) -> (r: Vec<char>)
    ensures
        r@ == dec_str(n as int),
{
    let mut low: Vec<char> = Vec::new();
    let mut m = n;
    while m > 9
        invariant
            dec_str(n as int) == dec_str(m as int) + low@.reverse(),
        decreases m,
    {
        let d = dec_digit_exec(m % 10);
        proof {
            assert(dec_str(m as int) == dec_str(m as int / 10).push(dec_digit(m as int % 10)));
            assert(low@.push(d).reverse() =~= seq![d] + low@.reverse());
            assert(dec_str(m as int / 10) + low@.push(d).reverse() =~= dec_str(m as int)
                + low@.reverse());
            assert(m as int / 10 == (m / 10) as int);
        }
        low.push(d);
        m = m / 10;
    }
    let mut r: Vec<char> = Vec::new();
    r.push(dec_digit_exec(m));
    let mut k: usize = 0;
    proof {
        assert(r@ =~= dec_str(m as int) + low@.reverse().take(0));
    }
    while k < low.len()
        invariant
            0 <= k <= low@.len(),
            dec_str(n as int) == dec_str(m as int) + low@.reverse(),
            r@ == dec_str(m as int) + low@.reverse().take(k as int),
        decreases low@.len() - k,
    {
        let c = low[low.len() - 1 - k];
        proof {
            assert(low@.reverse()[k as int] == low@[low@.len() - 1 - k]);
            assert(low@.reverse().take(k + 1) =~= low@.reverse().take(k as int).push(
                low@.reverse()[k as int],
            ));
        }
        r.push(c);
        k = k + 1;
    }
    proof {
        assert(low@.reverse().take(low@.len() as int) =~= low@.reverse());
    }
    r
}

} // verus!
