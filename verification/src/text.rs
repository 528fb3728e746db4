//! Text: white space, trimming, prefixes, lines and joins.

use vstd::prelude::*;
use vstd::string::StrSliceExecFns;

verus! {

/// A kind of character that can be trimmed from the ends of a text.
#[derive(Clone, Copy, PartialEq, Eq, Structural)]
pub enum CharClass {
    /// The characters with the Unicode property `White_Space`.
    WhiteSpace,
    /// A forward slash.
    Slash,
}

/// Whether the code point `c` has the Unicode property `White_Space`.
pub open spec fn is_white_space(c: char) -> bool {
    ||| 0x09 <= c as u32 <= 0x0d
    ||| c as u32 == 0x20
    ||| c as u32 == 0x85
    ||| c as u32 == 0xa0
    ||| c as u32 == 0x1680
    ||| 0x2000 <= c as u32 <= 0x200a
    ||| c as u32 == 0x2028
    ||| c as u32 == 0x2029
    ||| c as u32 == 0x202f
    ||| c as u32 == 0x205f
    ||| c as u32 == 0x3000
}

impl CharClass {
    /// Whether `c` is of this kind.
    pub open spec fn has(self, c: char) -> bool {
        match self {
            CharClass::WhiteSpace => is_white_space(c),
            CharClass::Slash => c == '/',
        }
    }

    /// Tells whether `c` is of this kind.
    pub fn contains(self, c: char) -> (r: bool)
        ensures
            r == self.has(c),
    {
        match self {
            CharClass::WhiteSpace => {
                let n: u32 = c as u32;
                (0x09 <= n && n <= 0x0d) || n == 0x20 || n == 0x85 || n == 0xa0 || n == 0x1680 || (
                0x2000 <= n && n <= 0x200a) || n == 0x2028 || n == 0x2029 || n == 0x202f || n
                    == 0x205f || n == 0x3000
            },
            CharClass::Slash => c == '/',
        }
    }
}

/// `s` without the characters of `class` that it starts with.
pub open spec fn trimmed_start(s: Seq<char>, class: CharClass) -> Seq<char>
    decreases s.len(),
{
    if s.len() > 0 && class.has(s.first()) {
        trimmed_start(s.drop_first(), class)
    } else {
        s
    }
}

/// `s` without the characters of `class` that it ends with.
pub open spec fn trimmed_end(s: Seq<char>, class: CharClass) -> Seq<char>
    decreases s.len(),
{
    if s.len() > 0 && class.has(s.last()) {
        trimmed_end(s.drop_last(), class)
    } else {
        s
    }
}

/// `s` without the white space at its start and at its end.
pub open spec fn trimmed(s: Seq<char>) -> Seq<char> {
    trimmed_end(trimmed_start(s, CharClass::WhiteSpace), CharClass::WhiteSpace)
}

/// Whether `s` has no character but white space.
pub open spec fn is_blank(s: Seq<char>) -> bool {
    forall|i: int| 0 <= i < s.len() ==> is_white_space(#[trigger] s[i])
}

/// The elements of `parts`, one after another, with `separator` between them.
pub open spec fn joined(parts: Seq<Seq<char>>, separator: Seq<char>) -> Seq<char>
    decreases parts.len(),
{
    if parts.len() == 0 {
        Seq::empty()
    } else if parts.len() == 1 {
        parts[0]
    } else {
        joined(parts.drop_last(), separator) + separator + parts.last()
    }
}

/// A text cut at its line feeds.
pub struct Lines {
    /// The lines that a line feed ends, without the line feed.
    pub complete: Seq<Seq<char>>,
    /// What follows the last line feed.
    pub rest: Seq<char>,
}

/// `s`, cut at its line feeds.
pub open spec fn lines(s: Seq<char>) -> Lines
    decreases s.len(),
{
    if s.len() == 0 {
        Lines { complete: Seq::empty(), rest: Seq::empty() }
    } else {
        let before = lines(s.drop_last());
        if s.last() == '\n' {
            Lines { complete: before.complete.push(before.rest), rest: Seq::empty() }
        } else {
            Lines { complete: before.complete, rest: before.rest.push(s.last()) }
        }
    }
}

/// What the texts of a sequence hold.
pub open spec fn texts(s: Seq<String>) -> Seq<Seq<char>> {
    s.map_values(|t: String| t@)
}

/// What an owned text holds, where it is there.
pub open spec fn string_view(s: Option<String>) -> Option<Seq<char>> {
    match s {
        Some(t) => Some(t@),
        None => None,
    }
}

/// `String::push` appends one character.
pub assume_specification[ String::push ](s: &mut String, c: char)
    ensures
        final(s)@ == old(s)@.push(c),
;

/// What `String::from_utf8_lossy` reads from a byte string.
pub uninterp spec fn utf8_lossy(bytes: Seq<u8>) -> Seq<char>;

/// `String::from_utf8_lossy` decodes a byte string. Valid UTF-8 comes out as
/// the characters that it encodes.
#[verifier::external_body]
pub(crate) fn text_from_utf8_lossy(bytes: &[u8]) -> (r: String)
    ensures
        r@ == utf8_lossy(bytes@),
        vstd::utf8::valid_utf8(bytes@) ==> r@ == vstd::utf8::decode_utf8(bytes@),
{
    String::from_utf8_lossy(bytes).into_owned()
}

/// The characters of a text.
pub fn chars_of(s: &str) -> (r: Vec<char>)
    ensures
        r@ == s@,
{
    let mut v: Vec<char> = Vec::new();
    for c in it: s.chars()
        invariant
            v@ == it.seq().take(it.index()),
    {
        v.push(c);
    }
    v
}

/// Tells whether two texts are the same.
pub fn str_eq(a: &str, b: &str) -> (r: bool)
    ensures
        r == (a@ == b@),
{
    let x = chars_of(a);
    let y = chars_of(b);
    if x.len() != y.len() {
        return false;
    }
    let mut i: usize = 0;
    while i < x.len()
        invariant
            x@ == a@,
            y@ == b@,
            i <= x.len() == y.len(),
            forall|j: int| 0 <= j < i ==> x@[j] == y@[j],
        decreases x.len() - i,
    {
        if x[i] != y[i] {
            proof {
                assert(a@[i as int] != b@[i as int]);
            }
            return false;
        }
        i = i + 1;
    }
    proof {
        assert(a@ =~= b@);
    }
    true
}

proof fn lemma_trimmed_start_step(s: Seq<char>, class: CharClass, i: int)
    requires
        0 <= i < s.len(),
        class.has(s[i]),
    ensures
        trimmed_start(s.skip(i), class) == trimmed_start(s.skip(i + 1), class),
{
    assert(s.skip(i).drop_first() =~= s.skip(i + 1));
}

/// The text without the characters of `class` that it starts with.
pub fn trim_start(s: &str, class: CharClass) -> (r: &str)
    ensures
        r@ == trimmed_start(s@, class),
{
    let v = chars_of(s);
    let mut i: usize = 0;
    proof {
        assert(s@.skip(0) =~= s@);
    }
    while i < v.len() && class.contains(v[i])
        invariant
            v@ == s@,
            i <= v.len(),
            trimmed_start(s@, class) == trimmed_start(s@.skip(i as int), class),
        decreases v.len() - i,
    {
        proof {
            lemma_trimmed_start_step(s@, class, i as int);
        }
        i = i + 1;
    }
    proof {
        assert(s@.subrange(i as int, v.len() as int) =~= s@.skip(i as int));
    }
    s.substring_char(i, v.len())
}

proof fn lemma_trimmed_end_step(s: Seq<char>, class: CharClass, n: int)
    requires
        0 < n <= s.len(),
        class.has(s[n - 1]),
    ensures
        trimmed_end(s.take(n), class) == trimmed_end(s.take(n - 1), class),
{
    assert(s.take(n).drop_last() =~= s.take(n - 1));
}

/// The text without the characters of `class` that it ends with.
pub fn trim_end(s: &str, class: CharClass) -> (r: &str)
    ensures
        r@ == trimmed_end(s@, class),
{
    let v = chars_of(s);
    let mut n: usize = v.len();
    proof {
        assert(s@.take(n as int) =~= s@);
    }
    while n > 0 && class.contains(v[n - 1])
        invariant
            v@ == s@,
            n <= v.len(),
            trimmed_end(s@, class) == trimmed_end(s@.take(n as int), class),
        decreases n,
    {
        proof {
            lemma_trimmed_end_step(s@, class, n as int);
        }
        n = n - 1;
    }
    proof {
        assert(s@.subrange(0, n as int) =~= s@.take(n as int));
    }
    s.substring_char(0, n)
}

/// The text without the white space at its start and at its end.
pub fn trim(s: &str) -> (r: &str)
    ensures
        r@ == trimmed(s@),
{
    trim_end(trim_start(s, CharClass::WhiteSpace), CharClass::WhiteSpace)
}

/// Tells whether a text has no character but white space.
pub fn blank(s: &str) -> (r: bool)
    ensures
        r == is_blank(s@),
{
    let v = chars_of(s);
    let mut i: usize = 0;
    while i < v.len()
        invariant
            v@ == s@,
            i <= v.len(),
            forall|j: int| 0 <= j < i ==> is_white_space(#[trigger] s@[j]),
        decreases v.len() - i,
    {
        if !CharClass::WhiteSpace.contains(v[i]) {
            return false;
        }
        i = i + 1;
    }
    true
}

/// What follows `prefix` in a text that starts with it.
pub fn strip_prefix<'a>(s: &'a str, prefix: &str) -> (r: Option<&'a str>)
    ensures
        match r {
            Some(t) => s@ == prefix@ + t@,
            None => !prefix@.is_prefix_of(s@),
        },
{
    let v = chars_of(s);
    let p = chars_of(prefix);
    if p.len() > v.len() {
        return None;
    }
    let mut i: usize = 0;
    while i < p.len()
        invariant
            v@ == s@,
            p@ == prefix@,
            i <= p.len() <= v.len(),
            forall|j: int| 0 <= j < i ==> v@[j] == p@[j],
        decreases p.len() - i,
    {
        if v[i] != p[i] {
            proof {
                assert(s@.subrange(0, p@.len() as int)[i as int] != p@[i as int]);
            }
            return None;
        }
        i = i + 1;
    }
    let t = s.substring_char(p.len(), v.len());
    proof {
        assert(s@ =~= prefix@ + t@);
    }
    Some(t)
}

/// The lines of a text that a line feed ends, and what follows the last line
/// feed.
pub fn split_lines(s: &str) -> (r: (Vec<String>, String))
    ensures
        texts(r.0@) == lines(s@).complete,
        r.1@ == lines(s@).rest,
{
    let mut complete: Vec<String> = Vec::new();
    let mut rest = String::new();
    proof {
        assert(texts(complete@) =~= lines(s@.take(0)).complete);
    }
    for c in it: s.chars()
        invariant
            it.seq() == s@,
            texts(complete@) == lines(s@.take(it.index())).complete,
            rest@ == lines(s@.take(it.index())).rest,
    {
        proof {
            assert(s@.take(it.index() + 1).drop_last() =~= s@.take(it.index()));
        }
        if c == '\n' {
            let ghost before = complete@;
            complete.push(rest);
            rest = String::new();
            proof {
                assert(texts(complete@) =~= texts(before).push(
                    lines(s@.take(it.index())).rest,
                ));
            }
        } else {
            rest.push(c);
        }
    }
    proof {
        assert(s@.take(s@.len() as int) =~= s@);
    }
    (complete, rest)
}

/// Cutting a text at its line feeds in two steps gives the lines of the whole:
/// what the first step leaves over is put before the rest of the text.
pub proof fn lines_of_concatenation(a: Seq<char>, b: Seq<char>)
    ensures
        lines(a + b).complete == lines(a).complete + lines(lines(a).rest + b).complete,
        lines(a + b).rest == lines(lines(a).rest + b).rest,
    decreases b.len(),
{
    let r = lines(a).rest;
    if b.len() == 0 {
        assert(a + b =~= a);
        assert(r + b =~= r);
        lemma_rest_has_no_line_feed(a);
        lemma_one_line(r);
        assert(lines(a).complete + Seq::<Seq<char>>::empty() =~= lines(a).complete);
    } else {
        lines_of_concatenation(a, b.drop_last());
        assert((a + b).drop_last() =~= a + b.drop_last());
        assert((r + b).drop_last() =~= r + b.drop_last());
        assert((a + b).last() == b.last());
        assert((r + b).last() == b.last());
        assert(lines(a + b).complete =~= lines(a).complete + lines(r + b).complete);
    }
}

pub proof fn lemma_rest_has_no_line_feed(s: Seq<char>)
    ensures
        !lines(s).rest.contains('\n'),
    decreases s.len(),
{
    if s.len() > 0 {
        lemma_rest_has_no_line_feed(s.drop_last());
        if s.last() != '\n' {
            let before = lines(s.drop_last()).rest;
            assert forall|i: int| 0 <= i < before.push(s.last()).len() implies before.push(
                s.last(),
            )[i] != '\n' by {
                if i < before.len() {
                    assert(before.contains(before[i]));
                }
            }
        }
    }
}

/// A text without a line feed is one line that nothing ends.
pub proof fn lemma_one_line(s: Seq<char>)
    requires
        !s.contains('\n'),
    ensures
        lines(s).complete == Seq::<Seq<char>>::empty(),
        lines(s).rest == s,
    decreases s.len(),
{
    if s.len() > 0 {
        assert(s.contains(s.last()));
        assert forall|i: int| 0 <= i < s.drop_last().len() implies s.drop_last()[i] != '\n' by {
            assert(s.contains(s[i]));
        }
        lemma_one_line(s.drop_last());
        assert(s.drop_last().push(s.last()) =~= s);
    }
}

} // verus!
