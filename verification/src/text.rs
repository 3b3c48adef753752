//! Verified text handling: character extraction, whitespace trimming,
//! line splitting, lexicographic comparison, and the two
//! output-comparison disciplines.

use vstd::prelude::*;
use vstd::std_specs::iter::IteratorSpec;

verus! {

/// Collects the characters of a string slice, in order.
pub fn chars_of(s: &str) -> (r: Vec<char>)
    ensures
        r@ == s@,
{
    broadcast use vstd::string::axiom_spec_iter;
    broadcast use vstd::string::next_postcondition;

    let mut it = s.chars();
    let mut r: Vec<char> = Vec::new();
    assert(r@ + it.remaining() == s@);
    loop
        invariant
            it.obeys_prophetic_iter_laws(),
            it.decrease() is Some,
            r@ + it.remaining() == s@,
        ensures
            r@ == s@,
        decreases it.decrease()->0,
    {
        let ghost pre = it.remaining();
        match it.next() {
            Some(c) => {
                r.push(c);
                assert(r@ + it.remaining() == s@);
            },
            None => {
                assert(pre.len() == 0);
                assert(r@ =~= s@);
                break ;
            },
        }
    }
    r
}

/// The Unicode white-space characters: what trimming strips.
pub open spec fn is_wspace(c: char) -> bool {
    let u = c as u32;
    ||| u == 0x09
    ||| u == 0x0A
    ||| u == 0x0B
    ||| u == 0x0C
    ||| u == 0x0D
    ||| u == 0x20
    ||| u == 0x85
    ||| u == 0xA0
    ||| u == 0x1680
    ||| (0x2000 <= u && u <= 0x200A)
    ||| u == 0x2028
    ||| u == 0x2029
    ||| u == 0x202F
    ||| u == 0x205F
    ||| u == 0x3000
}

/// Runtime test for [`is_wspace`].
pub fn is_wspace_char(c: char) -> (r: bool)
    ensures
        r == is_wspace(c),
{
    let u = c as u32;
    u == 0x09 || u == 0x0A || u == 0x0B || u == 0x0C || u == 0x0D || u == 0x20 || u == 0x85
        || u == 0xA0 || u == 0x1680 || (0x2000 <= u && u <= 0x200A) || u == 0x2028 || u == 0x2029
        || u == 0x202F || u == 0x205F || u == 0x3000
}

/// The sequence with its leading white space removed.
pub open spec fn ltrim(s: Seq<char>) -> Seq<char>
    decreases s.len(),
{
    if s.len() > 0 && is_wspace(s[0]) {
        ltrim(s.drop_first())
    } else {
        s
    }
}

/// The sequence with its trailing white space removed.
pub open spec fn rtrim(s: Seq<char>) -> Seq<char>
    decreases s.len(),
{
    if s.len() > 0 && is_wspace(s.last()) {
        rtrim(s.drop_last())
    } else {
        s
    }
}

/// The sequence with white space removed at both ends.
pub open spec fn trim(s: Seq<char>) -> Seq<char> {
    rtrim(ltrim(s))
}

proof fn lemma_ltrim_at(s: Seq<char>, k: int)
    requires
        0 <= k <= s.len(),
        forall|j: int| 0 <= j < k ==> is_wspace(s[j]),
        k < s.len() ==> !is_wspace(s[k]),
    ensures
        ltrim(s) == s.subrange(k, s.len() as int),
    decreases k,
{
    if k == 0 {
        assert(s.subrange(0, s.len() as int) =~= s);
    } else {
        lemma_ltrim_at(s.drop_first(), k - 1);
        assert(s.drop_first().subrange(k - 1, s.len() - 1) =~= s.subrange(k, s.len() as int));
    }
}

proof fn lemma_rtrim_at(s: Seq<char>, k: int)
    requires
        0 <= k <= s.len(),
        forall|j: int| k <= j < s.len() ==> is_wspace(s[j]),
        k > 0 ==> !is_wspace(s[k - 1]),
    ensures
        rtrim(s) == s.subrange(0, k),
    decreases s.len() - k,
{
    if k == s.len() {
        assert(s.subrange(0, k) =~= s);
    } else {
        assert(is_wspace(s.last()));
        lemma_rtrim_at(s.drop_last(), k);
        assert(s.drop_last().subrange(0, k) =~= s.subrange(0, k));
    }
}

/// Copies `v` with white space removed at both ends.
pub fn trim_chars(v: &Vec<char>) -> (r: Vec<char>)
    ensures
        r@ == trim(v@),
{
    let n = v.len();
    let mut lo: usize = 0;
    loop
        invariant
            lo <= n,
            n == v@.len(),
            forall|j: int| 0 <= j < lo ==> is_wspace(v@[j]),
        ensures
            lo <= n,
            forall|j: int| 0 <= j < lo ==> is_wspace(v@[j]),
            lo < n ==> !is_wspace(v@[lo as int]),
        decreases n - lo,
    {
        if lo < n {
            if is_wspace_char(v[lo]) {
                lo = lo + 1;
            } else {
                break ;
            }
        } else {
            break ;
        }
    }
    let mut hi: usize = n;
    loop
        invariant
            lo <= hi <= n,
            n == v@.len(),
            forall|j: int| hi <= j < n ==> is_wspace(v@[j]),
        ensures
            lo <= hi <= n,
            forall|j: int| hi <= j < n ==> is_wspace(v@[j]),
            hi > lo ==> !is_wspace(v@[hi - 1]),
        decreases hi,
    {
        if hi > lo {
            if is_wspace_char(v[hi - 1]) {
                hi = hi - 1;
            } else {
                break ;
            }
        } else {
            break ;
        }
    }
    let mut r: Vec<char> = Vec::new();
    let mut i: usize = lo;
    while i < hi
        invariant
            lo <= i <= hi <= n,
            n == v@.len(),
            r@ == v@.subrange(lo as int, i as int),
        decreases hi - i,
    {
        r.push(v[i]);
        assert(r@ =~= v@.subrange(lo as int, i + 1));
        i = i + 1;
    }
    proof {
        lemma_ltrim_at(v@, lo as int);
        let sub = v@.subrange(lo as int, n as int);
        lemma_rtrim_at(sub, hi - lo);
        assert(sub.subrange(0, hi - lo) =~= v@.subrange(lo as int, hi as int));
        assert(r@ =~= v@.subrange(lo as int, hi as int));
    }
    r
}

/// The pieces of `s` delimited by newline characters: one piece more
/// than there are newlines, in order, the newlines themselves dropped.
pub open spec fn split_lines(s: Seq<char>) -> Seq<Seq<char>>
    decreases s.len(),
{
    if s.len() == 0 {
        seq![Seq::<char>::empty()]
    } else if s[0] == '\n' {
        seq![Seq::<char>::empty()] + split_lines(s.drop_first())
    } else {
        let rest = split_lines(s.drop_first());
        seq![seq![s[0]] + rest[0]] + rest.drop_first()
    }
}

proof fn lemma_split_at_first_nl(s: Seq<char>, i: int)
    requires
        0 <= i <= s.len(),
        forall|j: int| 0 <= j < i ==> s[j] != '\n',
        i < s.len() ==> s[i] == '\n',
    ensures
        i == s.len() ==> split_lines(s) == seq![s],
        i < s.len() ==> split_lines(s) == seq![s.subrange(0, i)] + split_lines(
            s.subrange(i + 1, s.len() as int),
        ),
    decreases i,
{
    if i == 0 {
        if s.len() == 0 {
            assert(s =~= Seq::<char>::empty());
            assert(split_lines(s) =~= seq![s]);
        } else {
            assert(s.subrange(0, 0) =~= Seq::<char>::empty());
            assert(s.subrange(1, s.len() as int) =~= s.drop_first());
            assert(split_lines(s) =~= seq![s.subrange(0, 0)] + split_lines(
                s.subrange(1, s.len() as int),
            ));
        }
    } else {
        let d = s.drop_first();
        lemma_split_at_first_nl(d, i - 1);
        let rest = split_lines(d);
        if i == s.len() {
            assert(rest == seq![d]);
            assert(seq![s[0]] + d =~= s);
            assert(rest.drop_first() =~= Seq::<Seq<char>>::empty());
            assert(split_lines(s) =~= seq![s]);
        } else {
            let head = d.subrange(0, i - 1);
            let tail = split_lines(d.subrange(i, d.len() as int));
            assert(rest == seq![head] + tail);
            assert(rest[0] == head);
            assert(rest.drop_first() =~= tail);
            assert(seq![s[0]] + head =~= s.subrange(0, i));
            assert(d.subrange(i, d.len() as int) =~= s.subrange(i + 1, s.len() as int));
            assert(split_lines(s) =~= seq![s.subrange(0, i)] + split_lines(
                s.subrange(i + 1, s.len() as int),
            ));
        }
    }
}

/// Splits `v` on newline characters.
pub fn split_lines_chars(v: &Vec<char>) -> (r: Vec<Vec<char>>)
    ensures
        r.deep_view() == split_lines(v@),
{
    let n = v.len();
    let mut r: Vec<Vec<char>> = Vec::new();
    let mut start: usize = 0;
    proof {
        assert(v@.subrange(0, n as int) =~= v@);
        assert(r.deep_view() =~~= Seq::<Seq<char>>::empty());
        assert(split_lines(v@) =~~= r.deep_view() + split_lines(v@.subrange(0, n as int)));
    }
    loop
        invariant_except_break
            split_lines(v@) =~~= r.deep_view() + split_lines(v@.subrange(start as int, n as int)),
        invariant
            start <= n,
            n == v@.len(),
        ensures
            r.deep_view() =~~= split_lines(v@),
        decreases n - start,
    {
        let mut i: usize = start;
        loop
            invariant
                start <= i <= n,
                n == v@.len(),
                forall|j: int| start <= j < i ==> v@[j] != '\n',
            ensures
                start <= i <= n,
                forall|j: int| start <= j < i ==> v@[j] != '\n',
                i < n ==> v@[i as int] == '\n',
            decreases n - i,
        {
            if i < n {
                if v[i] == '\n' {
                    break ;
                } else {
                    i = i + 1;
                }
            } else {
                break ;
            }
        }
        let mut seg: Vec<char> = Vec::new();
        let mut j: usize = start;
        while j < i
            invariant
                start <= j <= i <= n,
                n == v@.len(),
                seg@ == v@.subrange(start as int, j as int),
            decreases i - j,
        {
            seg.push(v[j]);
            assert(seg@ =~= v@.subrange(start as int, j + 1));
            j = j + 1;
        }
        let ghost tail = v@.subrange(start as int, n as int);
        proof {
            lemma_split_at_first_nl(tail, i - start);
            assert(tail.subrange(0, i - start) =~= v@.subrange(start as int, i as int));
        }
        let ghost old_r = r.deep_view();
        r.push(seg);
        proof {
            assert(r.deep_view() =~~= old_r.push(seg@));
        }
        if i == n {
            proof {
                assert(seg@ =~= tail);
                assert(split_lines(tail) == seq![tail]);
                assert(old_r.push(seg@) =~~= old_r + seq![tail]);
                assert(r.deep_view() =~~= split_lines(v@));
            }
            break ;
        } else {
            proof {
                assert(tail.subrange(i - start + 1, tail.len() as int) =~= v@.subrange(
                    i + 1,
                    n as int,
                ));
                assert(split_lines(tail) == seq![seg@] + split_lines(v@.subrange(i + 1, n as int)));
                assert(r.deep_view() + split_lines(v@.subrange(i + 1, n as int)) =~~= old_r
                    + split_lines(tail));
            }
            start = i + 1;
        }
    }
    r
}

/// Whether two character vectors hold the same characters.
pub fn chars_eq(a: &Vec<char>, b: &Vec<char>) -> (r: bool)
    ensures
        r == (a@ == b@),
{
    if a.len() != b.len() {
        return false;
    }
    let n = a.len();
    let mut i: usize = 0;
    while i < n
        invariant
            i <= n,
            n == a@.len() == b@.len(),
            forall|j: int| 0 <= j < i ==> a@[j] == b@[j],
        decreases n - i,
    {
        if a[i] != b[i] {
            return false;
        }
        i = i + 1;
    }
    proof {
        assert(a@ =~= b@);
    }
    true
}

/// Whether two string slices hold the same characters.
pub fn str_eq(a: &str, b: &str) -> (r: bool)
    ensures
        r == (a@ == b@),
{
    let ac = chars_of(a);
    let bc = chars_of(b);
    chars_eq(&ac, &bc)
}

/// The line sequence by which the lenient discipline compares an
/// output: trim the whole text, split it on newlines, trim each line.
pub open spec fn trimmed_lines(s: Seq<char>) -> Seq<Seq<char>> {
    split_lines(trim(s)).map_values(|l: Seq<char>| trim(l))
}

/// The lenient comparison: line sequences agree after trimming.
pub open spec fn standard_match(out: Seq<char>, ans: Seq<char>) -> bool {
    trimmed_lines(out) == trimmed_lines(ans)
}

/// The strict comparison: the texts agree character for character.
pub open spec fn strict_match(out: Seq<char>, ans: Seq<char>) -> bool {
    out == ans
}

/// Decides [`standard_match`] on two strings.
pub fn outputs_match_standard(out: &str, ans: &str) -> (r: bool)
    ensures
        r == standard_match(out@, ans@),
{
    let oc = chars_of(out);
    let ac = chars_of(ans);
    let ot = trim_chars(&oc);
    let at = trim_chars(&ac);
    let ol = split_lines_chars(&ot);
    let al = split_lines_chars(&at);
    if ol.len() != al.len() {
        proof {
            assert(ol.deep_view().len() == ol@.len());
            assert(al.deep_view().len() == al@.len());
            assert(trimmed_lines(out@).len() == ol.deep_view().len());
            assert(trimmed_lines(ans@).len() == al.deep_view().len());
        }
        return false;
    }
    proof {
        assert(ol.deep_view().len() == ol@.len());
        assert(al.deep_view().len() == al@.len());
    }
    let n = ol.len();
    let mut i: usize = 0;
    while i < n
        invariant
            i <= n,
            n == ol@.len() == al@.len(),
            ol.deep_view() == split_lines(trim(out@)),
            al.deep_view() == split_lines(trim(ans@)),
            forall|j: int| 0 <= j < i ==> trim(ol.deep_view()[j]) == trim(al.deep_view()[j]),
        decreases n - i,
    {
        proof {
            assert(ol.deep_view()[i as int] == ol@[i as int]@);
            assert(al.deep_view()[i as int] == al@[i as int]@);
        }
        let olt = trim_chars(&ol[i]);
        let alt = trim_chars(&al[i]);
        if !chars_eq(&olt, &alt) {
            proof {
                assert(trimmed_lines(out@)[i as int] != trimmed_lines(ans@)[i as int]);
            }
            return false;
        }
        i = i + 1;
    }
    proof {
        assert(trimmed_lines(out@) =~= trimmed_lines(ans@));
    }
    true
}

/// Decides [`strict_match`] on two strings.
pub fn outputs_match_strict(out: &str, ans: &str) -> (r: bool)
    ensures
        r == strict_match(out@, ans@),
{
    let oc = chars_of(out);
    let ac = chars_of(ans);
    chars_eq(&oc, &ac)
}

/// Lexicographic order on character sequences, by scalar value.
pub open spec fn lex_le(a: Seq<char>, b: Seq<char>) -> bool
    decreases a.len(),
{
    if a.len() == 0 {
        true
    } else if b.len() == 0 {
        false
    } else if a[0] == b[0] {
        lex_le(a.drop_first(), b.drop_first())
    } else {
        (a[0] as u32) < (b[0] as u32)
    }
}

/// Decides [`lex_le`] on two strings.
pub fn str_lex_le(a: &str, b: &str) -> (r: bool)
    ensures
        r == lex_le(a@, b@),
{
    let ac = chars_of(a);
    let bc = chars_of(b);
    let mut i: usize = 0;
    proof {
        assert(a@.skip(0) =~= a@);
        assert(b@.skip(0) =~= b@);
    }
    loop
        invariant
            ac@ == a@,
            bc@ == b@,
            i <= a@.len(),
            i <= b@.len(),
            lex_le(a@, b@) == lex_le(a@.skip(i as int), b@.skip(i as int)),
        ensures
            i <= a@.len(),
            i <= b@.len(),
            lex_le(a@, b@) == lex_le(a@.skip(i as int), b@.skip(i as int)),
            (i < a@.len() && i < b@.len()) ==> a@[i as int] != b@[i as int],
        decreases a@.len() - i,
    {
        if i < ac.len() && i < bc.len() {
            if ac[i] == bc[i] {
                proof {
                    let sa = a@.skip(i as int);
                    let sb = b@.skip(i as int);
                    assert(sa[0] == a@[i as int]);
                    assert(sb[0] == b@[i as int]);
                    assert(sa.drop_first() =~= a@.skip(i + 1));
                    assert(sb.drop_first() =~= b@.skip(i + 1));
                }
                i = i + 1;
            } else {
                break ;
            }
        } else {
            break ;
        }
    }
    let ghost sa = a@.skip(i as int);
    let ghost sb = b@.skip(i as int);
    if i == ac.len() {
        proof {
            assert(sa.len() == 0);
        }
        true
    } else if i == bc.len() {
        proof {
            assert(sb.len() == 0 && sa.len() > 0);
        }
        false
    } else {
        proof {
            assert(sa[0] == a@[i as int]);
            assert(sb[0] == b@[i as int]);
        }
        (ac[i] as u32) < (bc[i] as u32)
    }
}

} // verus!
