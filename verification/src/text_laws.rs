//! What reading text does.

use crate::sse::line_event;
use crate::sse::line_events;
use crate::sse::up_to_done;
use crate::sse::SseModel;
use crate::text::is_white_space;
use crate::text::lines;
use crate::text::trimmed;
use crate::text::trimmed_end;
use crate::text::trimmed_start;
use crate::text::CharClass;
use vstd::prelude::*;

verus! {

/// Whether a text has a character that is no white space.
pub open spec fn has_ink(s: Seq<char>) -> bool {
    exists|i: int| 0 <= i < s.len() && !is_white_space(#[trigger] s[i])
}

/// Lines, each with a line feed after it.
pub open spec fn with_line_feeds(ls: Seq<Seq<char>>) -> Seq<char>
    decreases ls.len(),
{
    if ls.len() == 0 {
        Seq::empty()
    } else {
        with_line_feeds(ls.drop_last()) + ls.last().push('\n')
    }
}

/// Lines are what lies between line feeds: none has a line feed in it, and put
/// back together with their line feeds they are the text.
pub proof fn lines_are_the_text(s: Seq<char>)
    ensures
        with_line_feeds(lines(s).complete) + lines(s).rest == s,
        forall|i: int|
            0 <= i < lines(s).complete.len() ==> !(#[trigger] lines(s).complete[i]).contains(
                '\n',
            ),
        !lines(s).rest.contains('\n'),
    decreases s.len(),
{
    if s.len() == 0 {
        assert(with_line_feeds(lines(s).complete) + lines(s).rest =~= s);
    } else {
        let first = s.drop_last();
        let c = s.last();
        lines_are_the_text(first);
        let before = lines(first);
        let all = lines(s);
        if c == '\n' {
            assert(all.complete.drop_last() =~= before.complete);
            assert(with_line_feeds(all.complete) + all.rest =~= first.push(c));
            assert forall|i: int| 0 <= i < all.complete.len() implies !(
            #[trigger] all.complete[i]).contains('\n') by {
                if i < before.complete.len() {
                    assert(all.complete[i] == before.complete[i]);
                }
            }
        } else {
            assert(with_line_feeds(all.complete) + all.rest =~= first.push(c));
            assert forall|i: int| 0 <= i < all.rest.len() implies all.rest[i] != '\n' by {
                if i < before.rest.len() {
                    assert(before.rest.contains(before.rest[i]));
                }
            }
        }
        assert(first.push(c) =~= s);
    }
}

proof fn lemma_start(s: Seq<char>) -> (a: Seq<char>)
    ensures
        !has_ink(a),
        s == a + trimmed_start(s, CharClass::WhiteSpace),
        trimmed_start(s, CharClass::WhiteSpace).len() > 0 ==> !is_white_space(
            trimmed_start(s, CharClass::WhiteSpace)[0],
        ),
    decreases s.len(),
{
    if s.len() > 0 && is_white_space(s[0]) {
        let rest = s.drop_first();
        let b = lemma_start(rest);
        let a = seq![s[0]] + b;
        assert forall|i: int| 0 <= i < a.len() implies is_white_space(#[trigger] a[i]) by {
            if i > 0 {
                assert(a[i] == b[i - 1]);
            }
        }
        let t = trimmed_start(rest, CharClass::WhiteSpace);
        assert(trimmed_start(s, CharClass::WhiteSpace) == t);
        assert(rest == b + t);
        assert(s =~= seq![s[0]] + rest);
        assert(s =~= a + t);
        a
    } else {
        let a = Seq::<char>::empty();
        assert(s =~= a + s);
        a
    }
}

proof fn lemma_end(s: Seq<char>) -> (b: Seq<char>)
    ensures
        !has_ink(b),
        s == trimmed_end(s, CharClass::WhiteSpace) + b,
        trimmed_end(s, CharClass::WhiteSpace).len() > 0 ==> !is_white_space(
            trimmed_end(s, CharClass::WhiteSpace).last(),
        ),
    decreases s.len(),
{
    if s.len() > 0 && is_white_space(s.last()) {
        let rest = s.drop_last();
        let c = lemma_end(rest);
        let b = c.push(s.last());
        assert forall|i: int| 0 <= i < b.len() implies is_white_space(#[trigger] b[i]) by {
            if i < c.len() {
                assert(b[i] == c[i]);
            }
        }
        let t = trimmed_end(rest, CharClass::WhiteSpace);
        assert(trimmed_end(s, CharClass::WhiteSpace) == t);
        assert(rest == t + c);
        assert(s =~= rest.push(s.last()));
        assert(s =~= t + b);
        b
    } else {
        let b = Seq::<char>::empty();
        assert(s =~= s + b);
        b
    }
}

/// Whether `s` is `t` between `a` and `b`, which are white space alone.
pub open spec fn is_around(a: Seq<char>, b: Seq<char>, t: Seq<char>, s: Seq<char>) -> bool {
    !has_ink(a) && !has_ink(b) && s == (a + t) + b
}

/// Whether `t` is `s` without the white space around it: what is cut off at
/// either end is white space, and what is left neither starts nor ends with any.
pub open spec fn is_trimmed_from(t: Seq<char>, s: Seq<char>) -> bool {
    &&& t.len() > 0 ==> !is_white_space(t[0]) && !is_white_space(t.last())
    &&& exists|a: Seq<char>, b: Seq<char>| #[trigger] is_around(a, b, t, s)
}

/// Trimming takes the white space off both ends and nothing else.
pub proof fn trimming_takes_white_space(s: Seq<char>)
    ensures
        is_trimmed_from(trimmed(s), s),
{
    let t = trimmed_start(s, CharClass::WhiteSpace);
    let a = lemma_start(s);
    let b = lemma_end(t);
    let u = trimmed(s);
    assert(s =~= (a + u) + b);
    assert(is_around(a, b, u, s));
    if u.len() > 0 {
        assert(u[0] == t[0]);
    }
}

/// What a line says: a line says something exactly where it begins with `data: `;
/// what follows is its payload, without the white space around it; and one
/// payload is the end of the stream.
pub proof fn a_line_says_its_payload(line: Seq<char>)
    ensures
        line_event(line) is Some <==> line.len() >= 6 && line.take(6) == "data: "@,
        line_event(line) matches Some(SseModel::Data(payload)) ==> is_trimmed_from(
            payload,
            line.skip(6),
        ) && payload != "[DONE]"@,
        line_event(line) matches Some(SseModel::Done) ==> is_trimmed_from(
            "[DONE]"@,
            line.skip(6),
        ),
{
    reveal_strlit("data: ");
    assert("data: "@.len() == 6);
    if line.len() >= 6 {
        assert(line.take(6) =~= line.subrange(0, 6));
        trimming_takes_white_space(line.skip(6));
    }
}

/// What lines say, one after another: what each says, in their order.
pub proof fn lines_say_what_each_says(ls: Seq<Seq<char>>)
    ensures
        line_events(ls) == ls.filter_map(|l: Seq<char>| line_event(l)),
    decreases ls.len(),
{
    let f = |l: Seq<char>| line_event(l);
    if ls.len() == 0 {
        assert(line_events(ls) =~= ls.filter_map(f));
    } else {
        let first = ls.drop_last();
        let l = ls.last();
        lines_say_what_each_says(first);
        crate::sse::lemma_line_events_concat(first, seq![l]);
        assert(first + seq![l] =~= ls);
        let one = seq![l];
        assert(one.drop_first() =~= Seq::<Seq<char>>::empty());
        assert(line_events(one.drop_first()) =~= Seq::<SseModel>::empty());
        assert(one[0] == l);
        assert(line_events(one) =~= crate::sse::as_sequence(line_event(l)));
        assert(f(l) == line_event(l));
        assert(line_events(ls) =~= ls.filter_map(f));
    }
}

/// Nothing after the end of the stream counts, and everything before it does: what
/// counts is a beginning of what is said, with no end but at its last place, and
/// all of it where there is no end.
pub proof fn nothing_counts_after_the_end(events: Seq<SseModel>)
    ensures
        ({
            let kept = up_to_done(events);
            &&& kept.is_prefix_of(events)
            &&& forall|i: int| 0 <= i < kept.len() - 1 ==> !(#[trigger] kept[i] is Done)
            &&& kept.len() < events.len() ==> kept.len() > 0 && kept.last() is Done
        }),
    decreases events.len(),
{
    let kept = up_to_done(events);
    if events.len() == 0 {
        assert(events.subrange(0, 0) =~= kept);
    } else if events[0] is Done {
        assert(events.subrange(0, 1) =~= kept);
    } else {
        let rest = events.drop_first();
        nothing_counts_after_the_end(rest);
        let tail = up_to_done(rest);
        assert(events.subrange(0, kept.len() as int) =~= kept) by {
            assert forall|i: int| 0 <= i < kept.len() implies events[i] == kept[i] by {
                if i > 0 {
                    assert(rest.subrange(0, tail.len() as int)[i - 1] == tail[i - 1]);
                }
            }
        }
        assert forall|i: int| 0 <= i < kept.len() - 1 implies !(#[trigger] kept[i] is Done) by {
            if i > 0 {
                assert(kept[i] == tail[i - 1]);
            }
        }
        if kept.len() < events.len() {
            assert(kept.last() == tail.last());
        }
    }
}

} // verus!
