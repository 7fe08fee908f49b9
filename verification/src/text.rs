//! Character-level text utilities shared by the parsing and formatting code.

use vstd::prelude::*;

verus! {

/// Builds a `String` from a vector of characters (`FromIterator<&char>` for `String`).
/// Claimed: the string holds exactly the given characters, in order.
#[verifier::external_body]
pub(crate) fn string_from_chars(chars: &Vec<char>) -> (s: String)
    ensures
        s@ == chars@,
{
    chars.iter().collect()
}

/// The characters of a string slice, in order.
pub fn chars_of(s: &str) -> (v: Vec<char>)
    ensures
        v@ == s@,
{
    let mut v: Vec<char> = Vec::new();
    for c in it: s.chars()
        invariant
            v@ == it.seq().take(it.index() as int),
    {
        v.push(c);
    }
    v
}


/// `to` in place of every occurrence of `from` in `s`, matched from the left
/// without overlap (what `str::replace` computes for a non-empty `from`; an
/// empty `from` leaves `s` as it is).
pub open spec fn replaced(s: Seq<char>, from: Seq<char>, to: Seq<char>) -> Seq<char>
    decreases s.len(),
{
    if from.len() == 0 || s.len() < from.len() {
        s
    } else if s.take(from.len() as int) == from {
        to + replaced(s.skip(from.len() as int), from, to)
    } else {
        seq![s[0]] + replaced(s.skip(1), from, to)
    }
}

/// Whether `v[at..]` starts with `pat`.
fn matches_at(v: &Vec<char>, at: usize, pat: &Vec<char>) -> (r: bool)
    requires
        at <= v.len(),
    ensures
        r == (pat.len() <= v.len() - at && v@.skip(at as int).take(pat.len() as int) == pat@),
{
    if pat.len() > v.len() - at {
        return false;
    }
    let mut k: usize = 0;
    while k < pat.len()
        invariant
            at <= v.len(),
            pat.len() <= v.len() - at,
            k <= pat.len(),
            forall|j: int| 0 <= j < k ==> v@[at + j] == pat@[j],
        decreases pat.len() - k,
    {
        if v[at + k] != pat[k] {
            assert(v@.skip(at as int).take(pat.len() as int)[k as int] != pat@[k as int]);
            return false;
        }
        k += 1;
    }
    assert(v@.skip(at as int).take(pat.len() as int) =~= pat@);
    true
}

/// Every occurrence of `from` in `s` replaced by `to`, left to right.
pub fn replace_chars(s: &Vec<char>, from: &Vec<char>, to: &Vec<char>) -> (r: Vec<char>)
    ensures
        r@ == replaced(s@, from@, to@),
{
    let mut out: Vec<char> = Vec::new();
    if from.len() == 0 {
        let mut k: usize = 0;
        while k < s.len()
            invariant
                k <= s.len(),
                out@ == s@.take(k as int),
            decreases s.len() - k,
        {
            out.push(s[k]);
            k += 1;
            assert(out@ =~= s@.take(k as int));
        }
        assert(out@ =~= s@);
        return out;
    }
    let mut i: usize = 0;
    assert(s@.skip(0) =~= s@);
    while i < s.len()
        invariant
            i <= s.len(),
            from.len() > 0,
            out@ + replaced(s@.skip(i as int), from@, to@) == replaced(s@, from@, to@),
        decreases s.len() - i,
    {
        let rest = Ghost(s@.skip(i as int));
        if matches_at(s, i, from) {
            let mut k: usize = 0;
            let ghost before = out@;
            while k < to.len()
                invariant
                    k <= to.len(),
                    out@ == before + to@.take(k as int),
                decreases to.len() - k,
            {
                out.push(to[k]);
                k += 1;
                assert(out@ =~= before + to@.take(k as int));
            }
            assert(to@.take(to.len() as int) =~= to@);
            assert(rest@.skip(from.len() as int) =~= s@.skip((i + from.len()) as int));
            assert(before + (to@ + replaced(rest@.skip(from.len() as int), from@, to@))
                =~= out@ + replaced(s@.skip((i + from.len()) as int), from@, to@));
            i = i + from.len();
        } else {
            if s.len() - i >= from.len() {
                assert(rest@.skip(1) =~= s@.skip((i + 1) as int));
                assert(out@ + (seq![s@[i as int]] + replaced(rest@.skip(1), from@, to@))
                    =~= out@.push(s@[i as int]) + replaced(s@.skip((i + 1) as int), from@, to@));
                out.push(s[i]);
                i = i + 1;
            } else {
                let mut k: usize = i;
                let ghost before = out@;
                while k < s.len()
                    invariant
                        i <= k <= s.len(),
                        out@ == before + s@.subrange(i as int, k as int),
                    decreases s.len() - k,
                {
                    out.push(s[k]);
                    k += 1;
                    assert(out@ =~= before + s@.subrange(i as int, k as int));
                }
                assert(s@.subrange(i as int, s.len() as int) =~= rest@);
                assert(s@.skip(s.len() as int) =~= Seq::<char>::empty());
                i = s.len();
            }
        }
    }
    assert(s@.skip(s.len() as int) =~= Seq::<char>::empty());
    out
}


/// The entity and asterisk clean-up applied to scraped cells and responses:
/// `&amp;`, `&lt;`, `&gt;`, `&quot;`, `&apos;` decoded in that order, then every
/// `*` and every full-width `＊` removed.
pub open spec fn html_decoded(s: Seq<char>) -> Seq<char> {
    let a = replaced(s, seq!['&', 'a', 'm', 'p', ';'], seq!['&']);
    let b = replaced(a, seq!['&', 'l', 't', ';'], seq!['<']);
    let c = replaced(b, seq!['&', 'g', 't', ';'], seq!['>']);
    let d = replaced(c, seq!['&', 'q', 'u', 'o', 't', ';'], seq!['"']);
    let e = replaced(d, seq!['&', 'a', 'p', 'o', 's', ';'], seq!['\'']);
    let f = replaced(e, seq!['*'], Seq::<char>::empty());
    replaced(f, seq!['＊'], Seq::<char>::empty())
}

/// Decodes the five XML entities and drops asterisks (see [`html_decoded`]).
pub fn html_decode(input: &str) -> (r: String)
    ensures
        r@ == html_decoded(input@),
{
    let s = chars_of(input);
    let none: Vec<char> = Vec::new();
    let p1 = vec!['&', 'a', 'm', 'p', ';'];
    let r1 = vec!['&'];
    let p2 = vec!['&', 'l', 't', ';'];
    let r2 = vec!['<'];
    let p3 = vec!['&', 'g', 't', ';'];
    let r3 = vec!['>'];
    let p4 = vec!['&', 'q', 'u', 'o', 't', ';'];
    let r4 = vec!['"'];
    let p5 = vec!['&', 'a', 'p', 'o', 's', ';'];
    let r5 = vec!['\''];
    let p6 = vec!['*'];
    let p7 = vec!['＊'];
    assert(p1@ =~= seq!['&', 'a', 'm', 'p', ';'] && r1@ =~= seq!['&']);
    assert(p2@ =~= seq!['&', 'l', 't', ';'] && r2@ =~= seq!['<']);
    assert(p3@ =~= seq!['&', 'g', 't', ';'] && r3@ =~= seq!['>']);
    assert(p4@ =~= seq!['&', 'q', 'u', 'o', 't', ';'] && r4@ =~= seq!['"']);
    assert(p5@ =~= seq!['&', 'a', 'p', 'o', 's', ';'] && r5@ =~= seq!['\'']);
    assert(p6@ =~= seq!['*'] && p7@ =~= seq!['＊'] && none@ =~= Seq::<char>::empty());
    let a = replace_chars(&s, &p1, &r1);
    let b = replace_chars(&a, &p2, &r2);
    let c = replace_chars(&b, &p3, &r3);
    let d = replace_chars(&c, &p4, &r4);
    let e = replace_chars(&d, &p5, &r5);
    let f = replace_chars(&e, &p6, &none);
    let g = replace_chars(&f, &p7, &none);
    string_from_chars(&g)
}

/// Replacing by something no longer than the pattern never lengthens the text.
pub proof fn lemma_replaced_len(s: Seq<char>, from: Seq<char>, to: Seq<char>)
    requires
        to.len() <= from.len(),
    ensures
        replaced(s, from, to).len() <= s.len(),
    decreases s.len(),
{
    if from.len() == 0 || s.len() < from.len() {
    } else if s.take(from.len() as int) == from {
        lemma_replaced_len(s.skip(from.len() as int), from, to);
    } else {
        lemma_replaced_len(s.skip(1), from, to);
    }
}

/// A character absent from the text and from the replacement stays absent.
pub proof fn lemma_replaced_keeps_absent(s: Seq<char>, from: Seq<char>, to: Seq<char>, c: char)
    requires
        !s.contains(c),
        !to.contains(c),
    ensures
        !replaced(s, from, to).contains(c),
    decreases s.len(),
{
    if from.len() == 0 || s.len() < from.len() {
    } else if s.take(from.len() as int) == from {
        assert(!s.skip(from.len() as int).contains(c)) by {
            if s.skip(from.len() as int).contains(c) {
                let j = choose|j: int| 0 <= j < s.skip(from.len() as int).len() && s.skip(from.len() as int)[j] == c;
                assert(s[j + from.len()] == c);
            }
        }
        lemma_replaced_keeps_absent(s.skip(from.len() as int), from, to, c);
        let r = replaced(s.skip(from.len() as int), from, to);
        assert(!(to + r).contains(c)) by {
            if (to + r).contains(c) {
                let j = choose|j: int| 0 <= j < (to + r).len() && (to + r)[j] == c;
                if j < to.len() {
                    assert(to[j] == c);
                } else {
                    assert(r[j - to.len()] == c);
                }
            }
        }
    } else {
        assert(!s.skip(1).contains(c)) by {
            if s.skip(1).contains(c) {
                let j = choose|j: int| 0 <= j < s.skip(1).len() && s.skip(1)[j] == c;
                assert(s[j + 1] == c);
            }
        }
        lemma_replaced_keeps_absent(s.skip(1), from, to, c);
        let r = replaced(s.skip(1), from, to);
        assert(s.contains(s[0]));
        assert(!(seq![s[0]] + r).contains(c)) by {
            if (seq![s[0]] + r).contains(c) {
                let j = choose|j: int| 0 <= j < (seq![s[0]] + r).len() && (seq![s[0]] + r)[j] == c;
                if j < 1 {
                    assert(s[0] == c);
                } else {
                    assert(r[j - 1] == c);
                }
            }
        }
    }
}

/// Deleting a one-character pattern leaves no occurrence of that character.
pub proof fn lemma_replaced_removes(s: Seq<char>, c: char)
    ensures
        !replaced(s, seq![c], Seq::<char>::empty()).contains(c),
    decreases s.len(),
{
    let from = seq![c];
    let e = Seq::<char>::empty();
    if s.len() < 1 {
        assert(s.len() == 0);
    } else if s.take(1) == from {
        lemma_replaced_removes(s.skip(1), c);
        assert(e + replaced(s.skip(1), from, e) =~= replaced(s.skip(1), from, e));
    } else {
        lemma_replaced_removes(s.skip(1), c);
        let r = replaced(s.skip(1), from, e);
        assert(s.take(1) =~= seq![s[0]]);
        assert(s[0] != c);
        assert(!(seq![s[0]] + r).contains(c)) by {
            if (seq![s[0]] + r).contains(c) {
                let j = choose|j: int| 0 <= j < (seq![s[0]] + r).len() && (seq![s[0]] + r)[j] == c;
                if j >= 1 {
                    assert(r[j - 1] == c);
                }
            }
        }
    }
}

/// A text without the pattern's first character is left as it is.
proof fn lemma_replaced_absent(s: Seq<char>, from: Seq<char>, to: Seq<char>)
    requires
        from.len() > 0,
        !s.contains(from[0]),
    ensures
        replaced(s, from, to) == s,
    decreases s.len(),
{
    if s.len() >= from.len() {
        assert(s.take(from.len() as int)[0] == s[0]);
        assert(s.contains(s[0]));
        assert(!s.skip(1).contains(from[0])) by {
            if s.skip(1).contains(from[0]) {
                let j = choose|j: int| 0 <= j < s.skip(1).len() && s.skip(1)[j] == from[0];
                assert(s[j + 1] == from[0]);
            }
        }
        lemma_replaced_absent(s.skip(1), from, to);
        assert(seq![s[0]] + s.skip(1) =~= s);
    }
}

/// Law: text with no `&` and no asterisk of either width is left unchanged
/// by the clean-up, and such text after one of the entities `&lt;`, `&gt;`,
/// `&quot;` or `&apos;` has the entity decoded to its character.
pub proof fn lemma_html_decoded_plain(s: Seq<char>)
    requires
        !s.contains('&'),
        !s.contains('*'),
        !s.contains('＊'),
    ensures
        html_decoded(s) == s,
        html_decoded(seq!['&', 'l', 't', ';'] + s) == seq!['<'] + s,
        html_decoded(seq!['&', 'g', 't', ';'] + s) == seq!['>'] + s,
        html_decoded(seq!['&', 'q', 'u', 'o', 't', ';'] + s) == seq!['"'] + s,
        html_decoded(seq!['&', 'a', 'p', 'o', 's', ';'] + s) == seq!['\''] + s,
{
    lemma_plain_through(s);
    let lt = seq!['&', 'l', 't', ';'];
    let gt = seq!['&', 'g', 't', ';'];
    let quot = seq!['&', 'q', 'u', 'o', 't', ';'];
    let apos = seq!['&', 'a', 'p', 'o', 's', ';'];
    let amp = seq!['&', 'a', 'm', 'p', ';'];
    // each entity: untouched by the patterns before its own, decoded by its own
    lemma_entity_step(lt, s, amp, seq!['&'], 1);
    lemma_entity_hit(lt, s, seq!['<']);
    lemma_plain_through(seq!['<'] + s);
    lemma_entity_step(gt, s, amp, seq!['&'], 1);
    lemma_entity_step(gt, s, lt, seq!['<'], 1);
    lemma_entity_hit(gt, s, seq!['>']);
    lemma_plain_through(seq!['>'] + s);
    lemma_entity_step(quot, s, amp, seq!['&'], 1);
    lemma_entity_step(quot, s, lt, seq!['<'], 1);
    lemma_entity_step(quot, s, gt, seq!['>'], 1);
    lemma_entity_hit(quot, s, seq!['"']);
    lemma_plain_through(seq!['"'] + s);
    lemma_entity_step(apos, s, amp, seq!['&'], 2);
    lemma_entity_step(apos, s, lt, seq!['<'], 1);
    lemma_entity_step(apos, s, gt, seq!['>'], 1);
    lemma_entity_step(apos, s, quot, seq!['"'], 1);
    lemma_entity_hit(apos, s, seq!['\'']);
    lemma_plain_through(seq!['\''] + s);
    assert(!seq!['<'].contains('&') && !seq!['>'].contains('&'));
}

/// Plain text (after any one plain character) passes every step unchanged.
proof fn lemma_plain_through(t: Seq<char>)
    requires
        !t.contains('&') || (t.len() > 0 && !t.skip(1).contains('&') && t[0] != '&'),
        !t.contains('*'),
        !t.contains('＊'),
    ensures
        !t.contains('&'),
        replaced(t, seq!['&', 'a', 'm', 'p', ';'], seq!['&']) == t,
        replaced(t, seq!['&', 'l', 't', ';'], seq!['<']) == t,
        replaced(t, seq!['&', 'g', 't', ';'], seq!['>']) == t,
        replaced(t, seq!['&', 'q', 'u', 'o', 't', ';'], seq!['"']) == t,
        replaced(t, seq!['&', 'a', 'p', 'o', 's', ';'], seq!['\'']) == t,
        replaced(t, seq!['*'], Seq::<char>::empty()) == t,
        replaced(t, seq!['＊'], Seq::<char>::empty()) == t,
{
    if t.contains('&') {
        let j = choose|j: int| 0 <= j < t.len() && t[j] == '&';
        if j > 0 {
            assert(t.skip(1)[j - 1] == '&');
        }
    }
    lemma_replaced_absent(t, seq!['&', 'a', 'm', 'p', ';'], seq!['&']);
    lemma_replaced_absent(t, seq!['&', 'l', 't', ';'], seq!['<']);
    lemma_replaced_absent(t, seq!['&', 'g', 't', ';'], seq!['>']);
    lemma_replaced_absent(t, seq!['&', 'q', 'u', 'o', 't', ';'], seq!['"']);
    lemma_replaced_absent(t, seq!['&', 'a', 'p', 'o', 's', ';'], seq!['\'']);
    lemma_replaced_absent(t, seq!['*'], Seq::<char>::empty());
    lemma_replaced_absent(t, seq!['＊'], Seq::<char>::empty());
}

/// An entity followed by plain text is left as it is by another entity's
/// pattern that differs from it at position `k`.
proof fn lemma_entity_step(ent: Seq<char>, s: Seq<char>, from: Seq<char>, to: Seq<char>, k: int)
    requires
        1 <= k < ent.len(),
        k < from.len(),
        ent[0] == '&' && from[0] == '&',
        ent[k] != from[k],
        forall|k: int| 1 <= k < ent.len() ==> ent[k] != '&',
        !s.contains('&'),
    ensures
        replaced(ent + s, from, to) == ent + s,
{
    let t = ent + s;
    assert(!t.skip(1).contains('&')) by {
        if t.skip(1).contains('&') {
            let j = choose|j: int| 0 <= j < t.skip(1).len() && t.skip(1)[j] == '&';
            if j + 1 < ent.len() {
                assert(t[j + 1] == ent[j + 1]);
            } else {
                assert(t[j + 1] == s[j + 1 - ent.len()]);
            }
        }
    }
    lemma_replaced_absent(t.skip(1), from, to);
    if t.len() >= from.len() {
        assert(t.take(from.len() as int)[k] == ent[k]);
    }
    assert(seq![t[0]] + t.skip(1) =~= t);
}

/// An entity followed by plain text is decoded by its own pattern.
proof fn lemma_entity_hit(ent: Seq<char>, s: Seq<char>, to: Seq<char>)
    requires
        ent.len() >= 1,
        ent[0] == '&',
        !s.contains('&'),
    ensures
        replaced(ent + s, ent, to) == to + s,
{
    let t = ent + s;
    assert(t.take(ent.len() as int) =~= ent);
    assert(t.skip(ent.len() as int) =~= s);
    lemma_replaced_absent(s, ent, to);
}

/// Law: the decoded text holds no asterisk of either width and is never
/// longer than its input.
pub proof fn lemma_html_decoded_clean(s: Seq<char>)
    ensures
        !html_decoded(s).contains('*'),
        !html_decoded(s).contains('＊'),
        html_decoded(s).len() <= s.len(),
{
    let e = Seq::<char>::empty();
    let a = replaced(s, seq!['&', 'a', 'm', 'p', ';'], seq!['&']);
    let b = replaced(a, seq!['&', 'l', 't', ';'], seq!['<']);
    let c = replaced(b, seq!['&', 'g', 't', ';'], seq!['>']);
    let d = replaced(c, seq!['&', 'q', 'u', 'o', 't', ';'], seq!['"']);
    let f = replaced(d, seq!['&', 'a', 'p', 'o', 's', ';'], seq!['\'']);
    let g = replaced(f, seq!['*'], e);
    lemma_replaced_len(s, seq!['&', 'a', 'm', 'p', ';'], seq!['&']);
    lemma_replaced_len(a, seq!['&', 'l', 't', ';'], seq!['<']);
    lemma_replaced_len(b, seq!['&', 'g', 't', ';'], seq!['>']);
    lemma_replaced_len(c, seq!['&', 'q', 'u', 'o', 't', ';'], seq!['"']);
    lemma_replaced_len(d, seq!['&', 'a', 'p', 'o', 's', ';'], seq!['\'']);
    lemma_replaced_len(f, seq!['*'], e);
    lemma_replaced_len(g, seq!['＊'], e);
    lemma_replaced_removes(f, '*');
    lemma_replaced_removes(g, '＊');
    lemma_replaced_keeps_absent(g, seq!['＊'], e, '*');
}


/// The Unicode `White_Space` characters, which `char::is_whitespace` accepts.
pub open spec fn is_white_space(c: char) -> bool {
    let u = c as u32;
    (0x9 <= u && u <= 0xD) || u == 0x20 || u == 0x85 || u == 0xA0 || u == 0x1680
        || (0x2000 <= u && u <= 0x200A) || u == 0x2028 || u == 0x2029 || u == 0x202F
        || u == 0x205F || u == 0x3000
}

fn white_space(c: char) -> (r: bool)
    ensures
        r == is_white_space(c),
{
    let u = c as u32;
    (0x9 <= u && u <= 0xD) || u == 0x20 || u == 0x85 || u == 0xA0 || u == 0x1680
        || (0x2000 <= u && u <= 0x200A) || u == 0x2028 || u == 0x2029 || u == 0x202F
        || u == 0x205F || u == 0x3000
}

/// `s` without its leading white space.
pub open spec fn trimmed_start(s: Seq<char>) -> Seq<char>
    decreases s.len(),
{
    if s.len() > 0 && is_white_space(s[0]) {
        trimmed_start(s.drop_first())
    } else {
        s
    }
}

/// `s` without its trailing white space.
pub open spec fn trimmed_end(s: Seq<char>) -> Seq<char>
    decreases s.len(),
{
    if s.len() > 0 && is_white_space(s.last()) {
        trimmed_end(s.drop_last())
    } else {
        s
    }
}

/// `s` without leading and trailing white space (what `str::trim` gives).
pub open spec fn trimmed(s: Seq<char>) -> Seq<char> {
    trimmed_end(trimmed_start(s))
}

proof fn lemma_trim_start_at(s: Seq<char>) -> (i: int)
    ensures
        0 <= i <= s.len(),
        trimmed_start(s) == s.subrange(i, s.len() as int),
        forall|k: int| 0 <= k < i ==> is_white_space(#[trigger] s[k]),
        i < s.len() ==> !is_white_space(s[i]),
    decreases s.len(),
{
    if s.len() > 0 && is_white_space(s[0]) {
        let i0 = lemma_trim_start_at(s.drop_first());
        assert(s.drop_first().subrange(i0, s.len() - 1) =~= s.subrange(i0 + 1, s.len() as int));
        assert forall|k: int| 0 <= k < i0 + 1 implies is_white_space(#[trigger] s[k]) by {
            if k > 0 {
                assert(s[k] == s.drop_first()[k - 1]);
            }
        }
        i0 + 1
    } else {
        assert(s.subrange(0, s.len() as int) =~= s);
        0
    }
}

proof fn lemma_trim_end_at(s: Seq<char>) -> (j: int)
    ensures
        0 <= j <= s.len(),
        trimmed_end(s) == s.subrange(0, j),
        forall|k: int| j <= k < s.len() ==> is_white_space(#[trigger] s[k]),
        j > 0 ==> !is_white_space(s[j - 1]),
    decreases s.len(),
{
    if s.len() > 0 && is_white_space(s.last()) {
        let j0 = lemma_trim_end_at(s.drop_last());
        assert(s.drop_last().subrange(0, j0) =~= s.subrange(0, j0));
        assert forall|k: int| j0 <= k < s.len() implies is_white_space(#[trigger] s[k]) by {
            if k < s.len() - 1 {
                assert(s[k] == s.drop_last()[k]);
            }
        }
        j0
    } else {
        assert(s.subrange(0, s.len() as int) =~= s);
        s.len() as int
    }
}

/// Law: trimming cuts white space only, and all of it at both ends: the
/// result is a piece `s[i..j]` of the text with only white space before `i`
/// and from `j` on, and it neither starts nor ends with white space.
pub proof fn lemma_trimmed_shape(s: Seq<char>)
    ensures
        exists|i: int, j: int| 0 <= i <= j <= s.len() && trimmed(s) == s.subrange(i, j)
            && (forall|k: int| 0 <= k < i ==> is_white_space(#[trigger] s[k]))
            && (forall|k: int| j <= k < s.len() ==> is_white_space(#[trigger] s[k])),
        trimmed(s).len() > 0 ==> !is_white_space(trimmed(s)[0]) && !is_white_space(trimmed(s).last()),
{
    let i = lemma_trim_start_at(s);
    let t = s.subrange(i, s.len() as int);
    let j = lemma_trim_end_at(t);
    assert(t.subrange(0, j) =~= s.subrange(i, i + j));
    assert forall|k: int| i + j <= k < s.len() implies is_white_space(#[trigger] s[k]) by {
        assert(s[k] == t[k - i]);
    }
    if j > 0 {
        assert(trimmed(s)[0] == s[i]);
        assert(trimmed(s).last() == t[j - 1]);
    }
    assert(0 <= i <= i + j <= s.len() && trimmed(s) == s.subrange(i, i + j));
}

/// Leading and trailing white space removed.
pub fn trim_chars(s: &Vec<char>) -> (r: Vec<char>)
    ensures
        r@ == trimmed(s@),
{
    let mut i: usize = 0;
    assert(s@.skip(0) =~= s@);
    while i < s.len() && white_space(s[i])
        invariant
            i <= s.len(),
            trimmed_start(s@.skip(i as int)) == trimmed_start(s@),
        decreases s.len() - i,
    {
        assert(s@.skip(i as int).drop_first() =~= s@.skip(i + 1));
        i += 1;
    }
    let ghost head = s@.skip(i as int);
    assert(trimmed_start(s@) == head);
    let mut j: usize = s.len();
    assert(head.take(head.len() as int) =~= head);
    while j > i && white_space(s[j - 1])
        invariant
            i <= j <= s.len(),
            head == s@.skip(i as int),
            trimmed_end(head.take(j - i)) == trimmed_end(head),
        decreases j,
    {
        assert(head.take(j - i).drop_last() =~= head.take(j - 1 - i));
        j -= 1;
    }
    let mut out: Vec<char> = Vec::new();
    let mut k: usize = i;
    while k < j
        invariant
            i <= k <= j <= s.len(),
            out@ == s@.subrange(i as int, k as int),
        decreases j - k,
    {
        out.push(s[k]);
        k += 1;
        assert(out@ =~= s@.subrange(i as int, k as int));
    }
    assert(out@ =~= head.take(j - i));
    out
}

/// Whether `p` is a prefix of `s`.
pub open spec fn has_prefix(s: Seq<char>, p: Seq<char>) -> bool {
    p.len() <= s.len() && s.take(p.len() as int) == p
}

/// `str::starts_with` on character vectors.
pub fn starts_with_chars(s: &Vec<char>, p: &Vec<char>) -> (r: bool)
    ensures
        r == has_prefix(s@, p@),
{
    let r = matches_at(s, 0, p);
    assert(s@.skip(0) =~= s@);
    r
}

/// Character-sequence equality.
pub fn chars_eq(a: &Vec<char>, b: &Vec<char>) -> (r: bool)
    ensures
        r == (a@ == b@),
{
    if a.len() != b.len() {
        return false;
    }
    let r = matches_at(a, 0, b);
    assert(a@.skip(0) =~= a@);
    assert(a@.take(a.len() as int) =~= a@);
    r
}

/// Lexicographic order by code point, the order `String`'s `<` uses.
pub open spec fn lex_less(a: Seq<char>, b: Seq<char>) -> bool
    decreases a.len(),
{
    if a.len() == 0 {
        b.len() > 0
    } else if b.len() == 0 {
        false
    } else if (a[0] as u32) < (b[0] as u32) {
        true
    } else if a[0] == b[0] {
        lex_less(a.drop_first(), b.drop_first())
    } else {
        false
    }
}

/// Law: `lex_less` is the order of strings: `a < b` exactly when, at the
/// first position where they differ, `a` has the smaller character, or `a` is
/// a proper prefix of `b`.
pub proof fn lemma_lex_less_order(a: Seq<char>, b: Seq<char>)
    ensures
        lex_less(a, b) <==> (
            (exists|i: int| 0 <= i < a.len() && i < b.len() && a.take(i) == b.take(i) && (a[i] as u32) < (b[i] as u32))
            || (a.len() < b.len() && a == b.take(a.len() as int))),
    decreases a.len(),
{
    if a.len() == 0 {
        assert(a =~= b.take(0));
    } else if b.len() == 0 {
    } else {
        lemma_lex_less_order(a.drop_first(), b.drop_first());
        let a1 = a.drop_first();
        let b1 = b.drop_first();
        if (a[0] as u32) < (b[0] as u32) {
            assert(a.take(0) =~= b.take(0));
        } else if a[0] == b[0] {
            if exists|i: int| 0 <= i < a1.len() && i < b1.len() && a1.take(i) == b1.take(i) && (a1[i] as u32) < (b1[i] as u32) {
                let i = choose|i: int| 0 <= i < a1.len() && i < b1.len() && a1.take(i) == b1.take(i) && (a1[i] as u32) < (b1[i] as u32);
                assert(a.take(i + 1) =~= seq![a[0]] + a1.take(i));
                assert(b.take(i + 1) =~= seq![b[0]] + b1.take(i));
                assert(a[i + 1] == a1[i] && b[i + 1] == b1[i]);
            }
            if exists|i: int| 0 <= i < a.len() && i < b.len() && a.take(i) == b.take(i) && (a[i] as u32) < (b[i] as u32) {
                let i = choose|i: int| 0 <= i < a.len() && i < b.len() && a.take(i) == b.take(i) && (a[i] as u32) < (b[i] as u32);
                assert(i > 0);
                assert(a1.take(i - 1) =~= a.take(i).drop_first());
                assert(b1.take(i - 1) =~= b.take(i).drop_first());
                assert(a1[i - 1] == a[i] && b1[i - 1] == b[i]);
            }
            if a1.len() < b1.len() && a1 == b1.take(a1.len() as int) {
                assert forall|k: int| 0 <= k < a.len() implies a[k] == b.take(a.len() as int)[k] by {
                    if k > 0 {
                        assert(a[k] == a1[k - 1]);
                        assert(a1[k - 1] == b1.take(a1.len() as int)[k - 1]);
                    }
                }
                assert(a =~= b.take(a.len() as int));
            }
            if a.len() < b.len() && a == b.take(a.len() as int) {
                assert(a1 =~= b1.take(a1.len() as int));
            }
        } else {
            if exists|i: int| 0 <= i < a.len() && i < b.len() && a.take(i) == b.take(i) && (a[i] as u32) < (b[i] as u32) {
                let i = choose|i: int| 0 <= i < a.len() && i < b.len() && a.take(i) == b.take(i) && (a[i] as u32) < (b[i] as u32);
                if i > 0 {
                    assert(a.take(i)[0] == b.take(i)[0]);
                }
            }
            if a.len() < b.len() && a == b.take(a.len() as int) {
                assert(a[0] == b.take(a.len() as int)[0]);
            }
        }
    }
}

/// `a < b` in the order of strings.
pub fn lex_less_chars(a: &Vec<char>, b: &Vec<char>) -> (r: bool)
    ensures
        r == lex_less(a@, b@),
{
    let mut k: usize = 0;
    assert(a@.skip(0) =~= a@ && b@.skip(0) =~= b@);
    while k < a.len() && k < b.len()
        invariant
            k <= a.len(),
            k <= b.len(),
            lex_less(a@.skip(k as int), b@.skip(k as int)) == lex_less(a@, b@),
        decreases a.len() - k,
    {
        let ghost sa = a@.skip(k as int);
        let ghost sb = b@.skip(k as int);
        if (a[k] as u32) < (b[k] as u32) {
            return true;
        }
        if a[k] != b[k] {
            return false;
        }
        assert(sa.drop_first() =~= a@.skip(k + 1));
        assert(sb.drop_first() =~= b@.skip(k + 1));
        k += 1;
    }
    k == a.len() && k < b.len()
}

/// The ASCII digit characters.
pub open spec fn is_digit(c: char) -> bool {
    '0' <= c && c <= '9'
}

/// Numeric value of a run of digits, read in base ten.
pub open spec fn digits_value(s: Seq<char>) -> nat
    decreases s.len(),
{
    if s.len() == 0 {
        0
    } else {
        digits_value(s.drop_last()) * 10 + ((s.last() as u32) - ('0' as u32)) as nat
    }
}

/// Whether `s` is a non-empty run of ASCII digits.
pub open spec fn all_digits(s: Seq<char>) -> bool {
    s.len() > 0 && forall|i: int| 0 <= i < s.len() ==> is_digit(#[trigger] s[i])
}

/// What `u32::from_str` gives: an optional `+`, then digits, in range.
pub open spec fn parsed_u32(s: Seq<char>) -> Option<u32> {
    let body = if s.len() > 0 && s[0] == '+' { s.drop_first() } else { s };
    if all_digits(body) && digits_value(body) <= u32::MAX {
        Some(digits_value(body) as u32)
    } else {
        None
    }
}

/// What `i32::from_str` gives: an optional sign, then digits, in range.
pub open spec fn parsed_i32(s: Seq<char>) -> Option<i32> {
    let neg = s.len() > 0 && s[0] == '-';
    let body = if s.len() > 0 && (s[0] == '+' || s[0] == '-') { s.drop_first() } else { s };
    let v: int = if neg { -(digits_value(body) as int) } else { digits_value(body) as int };
    if all_digits(body) && i32::MIN <= v && v <= i32::MAX {
        Some(v as i32)
    } else {
        None
    }
}

proof fn lemma_digits_value_step(s: Seq<char>, k: int)
    requires
        0 <= k < s.len(),
    ensures
        digits_value(s.take(k + 1)) == digits_value(s.take(k)) * 10 + ((s[k] as u32) - ('0' as u32)) as nat,
{
    assert(s.take(k + 1).drop_last() =~= s.take(k));
}

proof fn lemma_digits_value_grows(s: Seq<char>, k: int)
    requires
        0 <= k <= s.len(),
        forall|i: int| 0 <= i < s.len() ==> is_digit(#[trigger] s[i]),
    ensures
        digits_value(s.take(k)) <= digits_value(s),
    decreases s.len() - k,
{
    if k < s.len() {
        lemma_digits_value_step(s, k);
        lemma_digits_value_grows(s, k + 1);
    } else {
        assert(s.take(k) =~= s);
    }
}

/// Reads `s[from..]` as a run of digits; `None` when a non-digit is met or
/// the value exceeds `limit`.
pub fn digits_in_range(s: &Vec<char>, from: usize, limit: u64) -> (r: Option<u64>)
    requires
        from <= s.len(),
        limit <= 1_000_000_000_000_000_000,
    ensures
        ({
            let body = s@.skip(from as int);
            match r {
                Some(v) => all_digits(body) && v == digits_value(body) && v <= limit,
                None => !(all_digits(body) && digits_value(body) <= limit),
            }
        }),
{
    let ghost body = s@.skip(from as int);
    if from == s.len() {
        return None;
    }
    let mut acc: u64 = 0;
    let mut k: usize = from;
    assert(body.take(0) =~= Seq::<char>::empty());
    while k < s.len()
        invariant
            from <= k <= s.len(),
            body == s@.skip(from as int),
            body.len() > 0,
            forall|i: int| 0 <= i < k - from ==> is_digit(#[trigger] body[i]),
            acc == digits_value(body.take(k - from)),
            acc <= limit,
            limit <= 1_000_000_000_000_000_000,
        decreases s.len() - k,
    {
        let c = s[k];
        if !('0' <= c && c <= '9') {
            assert(!is_digit(body[k - from]));
            return None;
        }
        proof {
            lemma_digits_value_step(body, k - from);
        }
        let d = (c as u32 - '0' as u32) as u64;
        let next = acc * 10 + d;
        if next > limit {
            proof {
                assert(digits_value(body.take(k - from + 1)) > limit);
                if all_digits(body) {
                    lemma_digits_value_grows(body, k - from + 1);
                }
            }
            return None;
        }
        acc = next;
        k += 1;
    }
    assert(body.take(k - from) =~= body);
    Some(acc)
}

/// `u32::from_str`.
pub fn parse_u32(s: &Vec<char>) -> (r: Option<u32>)
    ensures
        r == parsed_u32(s@),
{
    let start: usize = if s.len() > 0 && s[0] == '+' { 1 } else { 0 };
    assert(s@.skip(0) =~= s@);
    assert(s@.len() > 0 ==> s@.skip(1) =~= s@.drop_first());
    match digits_in_range(s, start, u32::MAX as u64) {
        Some(v) => Some(v as u32),
        None => None,
    }
}

/// `i32::from_str`.
pub fn parse_i32(s: &Vec<char>) -> (r: Option<i32>)
    ensures
        r == parsed_i32(s@),
{
    let neg = s.len() > 0 && s[0] == '-';
    let start: usize = if s.len() > 0 && (s[0] == '+' || s[0] == '-') { 1 } else { 0 };
    assert(s@.skip(0) =~= s@);
    assert(s@.len() > 0 ==> s@.skip(1) =~= s@.drop_first());
    let limit: u64 = if neg { 2147483648 } else { 2147483647 };
    match digits_in_range(s, start, limit) {
        Some(v) => {
            if neg {
                Some((0 - (v as i64)) as i32)
            } else {
                Some(v as i32)
            }
        },
        None => None,
    }
}


/// Appends the characters of `s`.
pub fn push_str(out: &mut Vec<char>, s: &str)
    ensures
        final(out)@ == old(out)@ + s@,
{
    let v = chars_of(s);
    push_chars(out, &v);
}

/// Appends the characters of `v`.
pub fn push_chars(out: &mut Vec<char>, v: &Vec<char>)
    ensures
        final(out)@ == old(out)@ + v@,
{
    let mut k: usize = 0;
    while k < v.len()
        invariant
            k <= v.len(),
            out@ == old(out)@ + v@.take(k as int),
        decreases v.len() - k,
    {
        out.push(v[k]);
        k += 1;
        assert(out@ =~= old(out)@ + v@.take(k as int));
    }
    assert(v@.take(v.len() as int) =~= v@);
}

/// A copy of a string.
pub fn copy_string(s: &String) -> (r: String)
    ensures
        r@ == s@,
{
    s.clone()
}

/// A copy of a list of strings.
pub fn copy_strings(v: &Vec<String>) -> (r: Vec<String>)
    ensures
        r.deep_view() == v.deep_view(),
{
    let mut out: Vec<String> = Vec::new();
    let mut k: usize = 0;
    while k < v.len()
        invariant
            k <= v.len(),
            out.deep_view() == v.deep_view().take(k as int),
        decreases v.len() - k,
    {
        let c = v[k].clone();
        assert(c@ == v.deep_view()[k as int]);
        let ghost before = out.deep_view();
        out.push(c);
        assert(out.deep_view() =~= before.push(c@));
        k += 1;
        assert(out.deep_view() =~= v.deep_view().take(k as int));
    }
    assert(v.deep_view().take(v.len() as int) =~= v.deep_view());
    out
}

/// `s` as a `String`, from a literal's characters.
pub fn string_of(v: Vec<char>) -> (r: String)
    ensures
        r@ == v@,
{
    string_from_chars(&v)
}

} // verus!
