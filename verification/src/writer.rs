//! Escaping of text for the markup of the exported package.

use crate::text::{chars_of, push_char};
use vstd::prelude::*;
use vstd::string::StringExecFns;

verus! {

/// Whether the character is one of the five that the markup reserves.
pub open spec fn is_reserved(c: char) -> bool {
    c == '&' || c == '<' || c == '>' || c == '\'' || c == '"'
}

/// What stands for one character in the markup: the entity of a reserved
/// character, any other character itself.
pub open spec fn escaped_char(c: char) -> Seq<char> {
    if c == '&' {
        "&amp;"@
    } else if c == '<' {
        "&lt;"@
    } else if c == '>' {
        "&gt;"@
    } else if c == '\'' {
        "&apos;"@
    } else if c == '"' {
        "&quot;"@
    } else {
        seq![c]
    }
}

/// A text with every character replaced by what stands for it in the markup.
pub open spec fn escaped(s: Seq<char>) -> Seq<char>
    decreases s.len(),
{
    if s.len() == 0 {
        Seq::empty()
    } else {
        escaped(s.drop_last()) + escaped_char(s.last())
    }
}

/// Whether `t` begins with the characters of `p`.
pub open spec fn begins_with(t: Seq<char>, p: Seq<char>) -> bool {
    p.len() <= t.len() && forall|i: int| 0 <= i < p.len() ==> t[i] == p[i]
}

/// The text that an escaped text stands for: each entity read as its
/// character, every other character as itself.
pub open spec fn unescaped(t: Seq<char>) -> Seq<char>
    decreases t.len(),
{
    if t.len() == 0 {
        Seq::empty()
    } else if t.len() >= 5 && begins_with(t, seq!['&', 'a', 'm', 'p', ';']) {
        seq!['&'] + unescaped(t.skip(5))
    } else if t.len() >= 4 && begins_with(t, seq!['&', 'l', 't', ';']) {
        seq!['<'] + unescaped(t.skip(4))
    } else if t.len() >= 4 && begins_with(t, seq!['&', 'g', 't', ';']) {
        seq!['>'] + unescaped(t.skip(4))
    } else if t.len() >= 6 && begins_with(t, seq!['&', 'a', 'p', 'o', 's', ';']) {
        seq!['\''] + unescaped(t.skip(6))
    } else if t.len() >= 6 && begins_with(t, seq!['&', 'q', 'u', 'o', 't', ';']) {
        seq!['"'] + unescaped(t.skip(6))
    } else {
        seq![t[0]] + unescaped(t.skip(1))
    }
}

/// The five entities, spelled out.
pub proof fn lemma_entities()
    ensures
        "&amp;"@ == seq!['&', 'a', 'm', 'p', ';'],
        "&lt;"@ == seq!['&', 'l', 't', ';'],
        "&gt;"@ == seq!['&', 'g', 't', ';'],
        "&apos;"@ == seq!['&', 'a', 'p', 'o', 's', ';'],
        "&quot;"@ == seq!['&', 'q', 'u', 'o', 't', ';'],
{
    reveal_strlit("&amp;");
    reveal_strlit("&lt;");
    reveal_strlit("&gt;");
    reveal_strlit("&apos;");
    reveal_strlit("&quot;");
    assert("&amp;"@ =~= seq!['&', 'a', 'm', 'p', ';']);
    assert("&lt;"@ =~= seq!['&', 'l', 't', ';']);
    assert("&gt;"@ =~= seq!['&', 'g', 't', ';']);
    assert("&apos;"@ =~= seq!['&', 'a', 'p', 'o', 's', ';']);
    assert("&quot;"@ =~= seq!['&', 'q', 'u', 'o', 't', ';']);
}

/// Escaping goes through a concatenation.
pub proof fn lemma_escaped_concat(a: Seq<char>, b: Seq<char>)
    ensures
        escaped(a + b) == escaped(a) + escaped(b),
    decreases b.len(),
{
    if b.len() == 0 {
        assert(a + b =~= a);
        assert(escaped(a) + escaped(b) =~= escaped(a));
    } else {
        lemma_escaped_concat(a, b.drop_last());
        assert((a + b).drop_last() =~= a + b.drop_last());
        assert(escaped(a + b) =~= escaped(a) + escaped(b));
    }
}

/// Reading what stands for one character gives the character back, whatever
/// follows.
pub proof fn lemma_unescaped_char(c: char, rest: Seq<char>)
    ensures
        unescaped(escaped_char(c) + rest) == seq![c] + unescaped(rest),
{
    lemma_entities();
    let t = escaped_char(c) + rest;
    if c == '&' {
        assert(begins_with(t, seq!['&', 'a', 'm', 'p', ';']));
        assert(t.skip(5) =~= rest);
    } else if c == '<' {
        assert(t[1] == 'l');
        assert(begins_with(t, seq!['&', 'l', 't', ';']));
        assert(t.skip(4) =~= rest);
    } else if c == '>' {
        assert(t[1] == 'g');
        assert(begins_with(t, seq!['&', 'g', 't', ';']));
        assert(t.skip(4) =~= rest);
    } else if c == '\'' {
        assert(t[1] == 'a' && t[2] == 'p');
        assert(seq!['&', 'a', 'm', 'p', ';'][2] == 'm');
        assert(begins_with(t, seq!['&', 'a', 'p', 'o', 's', ';']));
        assert(t.skip(6) =~= rest);
    } else if c == '"' {
        assert(t[1] == 'q');
        assert(begins_with(t, seq!['&', 'q', 'u', 'o', 't', ';']));
        assert(t.skip(6) =~= rest);
    } else {
        assert(t[0] == c);
        assert(seq!['&', 'a', 'm', 'p', ';'][0] == '&');
        assert(seq!['&', 'l', 't', ';'][0] == '&');
        assert(seq!['&', 'g', 't', ';'][0] == '&');
        assert(seq!['&', 'a', 'p', 'o', 's', ';'][0] == '&');
        assert(seq!['&', 'q', 'u', 'o', 't', ';'][0] == '&');
        assert(t.skip(1) =~= rest);
    }
}

/// Escaping loses nothing: reading an escaped text gives the text back.
pub proof fn lemma_escape_round_trip(s: Seq<char>)
    ensures
        unescaped(escaped(s)) == s,
    decreases s.len(),
{
    if s.len() == 0 {
    } else {
        let first = seq![s[0]];
        let rest = s.drop_first();
        assert(s =~= first + rest);
        lemma_escaped_concat(first, rest);
        assert(first.drop_last() =~= Seq::<char>::empty());
        assert(escaped(first.drop_last()) =~= Seq::<char>::empty());
        assert(escaped(first) =~= escaped_char(s[0]));
        lemma_unescaped_char(s[0], escaped(rest));
        lemma_escape_round_trip(rest);
    }
}

/// Whether an entity opens at position `i` of `t`.
pub open spec fn entity_at(t: Seq<char>, i: int) -> bool {
    ||| begins_with(t.skip(i), "&amp;"@)
    ||| begins_with(t.skip(i), "&lt;"@)
    ||| begins_with(t.skip(i), "&gt;"@)
    ||| begins_with(t.skip(i), "&apos;"@)
    ||| begins_with(t.skip(i), "&quot;"@)
}

/// In an escaped text no reserved character stands for itself: the only one
/// left is the `&` that opens an entity.
pub proof fn lemma_escaped_is_clean(s: Seq<char>)
    ensures
        forall|i: int|
            0 <= i < escaped(s).len() ==> {
                let c = #[trigger] escaped(s)[i];
                &&& c != '<' && c != '>' && c != '\'' && c != '"'
                &&& c == '&' ==> entity_at(escaped(s), i)
            },
    decreases s.len(),
{
    if s.len() > 0 {
        lemma_entities();
        let front = escaped(s.drop_last());
        let tail = escaped_char(s.last());
        let all = escaped(s);
        lemma_escaped_is_clean(s.drop_last());
        assert(all == front + tail);
        assert forall|i: int| 0 <= i < all.len() implies {
            let c = #[trigger] all[i];
            &&& c != '<' && c != '>' && c != '\'' && c != '"'
            &&& c == '&' ==> entity_at(all, i)
        } by {
            if i < front.len() {
                assert(all[i] == front[i]);
                if front[i] == '&' {
                    let t = front.skip(i);
                    let u = all.skip(i);
                    assert(entity_at(front, i));
                    assert forall|p: Seq<char>| begins_with(t, p) implies begins_with(u, p) by {
                        assert forall|k: int| 0 <= k < p.len() implies u[k] == p[k] by {
                            assert(u[k] == t[k]);
                        }
                    }
                }
            } else {
                let j = i - front.len();
                assert(all[i] == tail[j]);
                if tail[j] == '&' {
                    assert(j == 0);
                    assert(all.skip(i) =~= tail);
                }
            }
        }
    }
}

/// Replaces each reserved character by its entity.
pub fn escape_xml(input: &str) -> (r: String)
    ensures
        r@ == escaped(input@),
{
    let mut r = String::new();
    append_escaped(&mut r, input);
    assert(Seq::<char>::empty() + escaped(input@) =~= escaped(input@));
    r
}

/// Appends the escaped form of a text.
pub fn append_escaped(out: &mut String, input: &str)
    ensures
        final(out)@ == old(out)@ + escaped(input@),
{
    let v = chars_of(input);
    let mut i: usize = 0;
    assert(v@.take(0) =~= Seq::<char>::empty());
    assert(out@ + Seq::<char>::empty() =~= out@);
    while i < v.len()
        invariant
            i <= v.len(),
            v@ == input@,
            out@ == old(out)@ + escaped(v@.take(i as int)),
        decreases v.len() - i,
    {
        let c = v[i];
        let ghost before = out@;
        if c == '&' {
            out.append("&amp;");
        } else if c == '<' {
            out.append("&lt;");
        } else if c == '>' {
            out.append("&gt;");
        } else if c == '\'' {
            out.append("&apos;");
        } else if c == '"' {
            out.append("&quot;");
        } else {
            push_char(out, c);
        }
        proof {
            assert(out@ =~= before + escaped_char(c));
            assert(v@.take(i + 1).drop_last() =~= v@.take(i as int));
            assert(out@ =~= old(out)@ + escaped(v@.take(i + 1)));
        }
        i += 1;
    }
    assert(v@.take(v.len() as int) =~= v@);
}

} // verus!
