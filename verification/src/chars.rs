//! Character-level text helpers shared by the pipeline stages.

use vstd::prelude::*;

verus! {

/// Whether `c` has the Unicode `White_Space` property: the controls from
/// tab to carriage return, the space, next line, the no-break space, the
/// Ogham space mark, the spaces from en quad to hair space, the line and
/// paragraph separators, the narrow no-break space, the medium
/// mathematical space and the ideographic space.
pub open spec fn white_space(c: char) -> bool {
    let code = c as u32;
    ||| 0x09 <= code <= 0x0d
    ||| code == 0x20
    ||| code == 0x85
    ||| code == 0xa0
    ||| code == 0x1680
    ||| 0x2000 <= code <= 0x200a
    ||| code == 0x2028
    ||| code == 0x2029
    ||| code == 0x202f
    ||| code == 0x205f
    ||| code == 0x3000
}

/// The lowercase form of a text, as Unicode defines it for whole strings.
pub uninterp spec fn lowercase(text: Seq<char>) -> Seq<char>;

/// `char::is_whitespace` of std: reports the `White_Space` property of
/// `c`, which Unicode gives to the characters that `white_space` lists.
#[verifier::external_body]
pub(crate) fn is_whitespace(c: char) -> (b: bool)
    ensures
        b == white_space(c),
{
    c.is_whitespace()
}

/// `str::to_lowercase` of std: the result is a function of the text alone.
#[verifier::external_body]
pub(crate) fn to_lowercase(text: &str) -> (lower: String)
    ensures
        lower@ == lowercase(text@),
{
    text.to_lowercase()
}

/// `String::push` of std: appends one character.
#[verifier::external_body]
pub(crate) fn push_char(text: &mut String, c: char)
    ensures
        final(text)@ == old(text)@.push(c),
{
    text.push(c)
}

/// The characters of `text`, in order.
pub fn chars_of(text: &str) -> (chars: Vec<char>)
    ensures
        chars@ == text@,
{
    let mut chars: Vec<char> = Vec::new();
    let it0 = text.chars();
    for c in it: it0
        invariant
            chars@ == it.seq().take(it.index()),
            it.seq() == text@,
    {
        chars.push(c);
    }
    chars
}

/// Whether two texts hold the same characters.
pub fn same_text(a: &str, b: &str) -> (same: bool)
    ensures
        same == (a@ == b@),
{
    a.to_owned() == b.to_owned()
}

/// How many characters at the start of `s` satisfy `p`.
pub open spec fn leading(s: Seq<char>, p: spec_fn(char) -> bool) -> nat
    decreases s.len(),
{
    if s.len() > 0 && p(s[0]) {
        1 + leading(s.drop_first(), p)
    } else {
        0
    }
}

/// How many characters at the end of `s` satisfy `p`.
pub open spec fn trailing(s: Seq<char>, p: spec_fn(char) -> bool) -> nat
    decreases s.len(),
{
    if s.len() > 0 && p(s.last()) {
        1 + trailing(s.drop_last(), p)
    } else {
        0
    }
}

/// `s` without the characters at its end that satisfy `p`.
pub open spec fn strip_end(s: Seq<char>, p: spec_fn(char) -> bool) -> Seq<char> {
    s.take(s.len() - trailing(s, p))
}

/// `s` without the characters at either end that satisfy `p`.
pub open spec fn strip(s: Seq<char>, p: spec_fn(char) -> bool) -> Seq<char> {
    let kept = strip_end(s, p);
    kept.skip(leading(kept, p) as int)
}

pub open spec fn is_space() -> spec_fn(char) -> bool {
    |c: char| white_space(c)
}

pub open spec fn is_hyphen() -> spec_fn(char) -> bool {
    |c: char| c == '-'
}

/// `s` without leading and trailing whitespace.
pub open spec fn trimmed(s: Seq<char>) -> Seq<char> {
    strip(s, is_space())
}

/// A count of leading characters is settled by the first one that fails `p`.
pub proof fn lemma_leading_is(s: Seq<char>, p: spec_fn(char) -> bool, n: int)
    requires
        0 <= n <= s.len(),
        forall|k: int| 0 <= k < n ==> p(#[trigger] s[k]),
        n < s.len() ==> !p(s[n]),
    ensures
        leading(s, p) == n,
    decreases s.len(),
{
    if n > 0 {
        let rest = s.drop_first();
        assert(p(s[0]));
        assert forall|k: int| 0 <= k < n - 1 implies p(#[trigger] rest[k]) by {
            assert(rest[k] == s[k + 1]);
        }
        if n < s.len() {
            assert(rest[n - 1] == s[n]);
        }
        lemma_leading_is(rest, p, n - 1);
    }
}

/// A count of trailing characters is settled by the last one that fails `p`.
pub proof fn lemma_trailing_is(s: Seq<char>, p: spec_fn(char) -> bool, n: int)
    requires
        0 <= n <= s.len(),
        forall|k: int| s.len() - n <= k < s.len() ==> p(#[trigger] s[k]),
        n < s.len() ==> !p(s[s.len() - n - 1]),
    ensures
        trailing(s, p) == n,
    decreases s.len(),
{
    if n > 0 {
        let rest = s.drop_last();
        assert(p(s[s.len() - 1]));
        assert forall|k: int| rest.len() - (n - 1) <= k < rest.len() implies p(#[trigger] rest[k]) by {
            assert(rest[k] == s[k]);
        }
        if n < s.len() {
            assert(rest[rest.len() - (n - 1) - 1] == s[s.len() - n - 1]);
        }
        lemma_trailing_is(rest, p, n - 1);
    }
}

/// The characters of `chars` from `from` up to `to`, as a string.
pub(crate) fn sub_string(chars: &Vec<char>, from: usize, to: usize) -> (text: String)
    requires
        from <= to <= chars.len(),
    ensures
        text@ == chars@.subrange(from as int, to as int),
{
    let mut text = String::new();
    let mut i: usize = from;
    while i < to
        invariant
            from <= i <= to <= chars.len(),
            text@ == chars@.subrange(from as int, i as int),
        decreases to - i,
    {
        push_char(&mut text, chars[i]);
        assert(text@ =~= chars@.subrange(from as int, i + 1));
        i += 1;
    }
    text
}

/// The end of `chars[from..to]` once trailing whitespace is left off.
pub(crate) fn space_trimmed_end(chars: &Vec<char>, from: usize, to: usize) -> (end: usize)
    requires
        from <= to <= chars.len(),
    ensures
        from <= end <= to,
        chars@.subrange(from as int, end as int) == strip_end(
            chars@.subrange(from as int, to as int),
            is_space(),
        ),
{
    let mut end: usize = to;
    let ghost s = chars@.subrange(from as int, to as int);
    while end > from && is_whitespace(chars[end - 1])
        invariant
            from <= end <= to <= chars.len(),
            s == chars@.subrange(from as int, to as int),
            forall|k: int| end - from <= k < s.len() ==> white_space(#[trigger] s[k]),
        decreases end,
    {
        end -= 1;
    }
    proof {
        lemma_trailing_is(s, is_space(), to - end);
        assert(chars@.subrange(from as int, end as int) =~= s.take(s.len() - (to - end)));
    }
    end
}

/// The start of `chars[from..to]` once leading whitespace is left off.
pub(crate) fn space_trimmed_start(chars: &Vec<char>, from: usize, to: usize) -> (start: usize)
    requires
        from <= to <= chars.len(),
    ensures
        from <= start <= to,
        start - from == leading(chars@.subrange(from as int, to as int), is_space()),
{
    let mut start: usize = from;
    let ghost s = chars@.subrange(from as int, to as int);
    while start < to && is_whitespace(chars[start])
        invariant
            from <= start <= to <= chars.len(),
            s == chars@.subrange(from as int, to as int),
            forall|k: int| 0 <= k < start - from ==> white_space(#[trigger] s[k]),
        decreases to - start,
    {
        start += 1;
    }
    proof {
        lemma_leading_is(s, is_space(), start - from);
    }
    start
}

/// `text` without leading and trailing whitespace.
pub fn trim(text: &str) -> (kept: String)
    ensures
        kept@ == trimmed(text@),
{
    let chars = chars_of(text);
    let end = space_trimmed_end(&chars, 0, chars.len());
    let start = space_trimmed_start(&chars, 0, end);
    proof {
        assert(chars@.subrange(0, chars.len() as int) =~= chars@);
        let kept = strip_end(text@, is_space());
        assert(chars@.subrange(start as int, end as int) =~= kept.skip(leading(kept, is_space()) as int));
    }
    sub_string(&chars, start, end)
}

/// The index of the first `c` in `s`, or the length of `s` where there is none.
pub open spec fn first_index(s: Seq<char>, c: char) -> nat
    decreases s.len(),
{
    if s.len() == 0 || s[0] == c {
        0
    } else {
        1 + first_index(s.drop_first(), c)
    }
}

/// A line without the carriage return that may stand before its line feed.
pub open spec fn without_return(line: Seq<char>) -> Seq<char> {
    if line.len() > 0 && line.last() == '\r' {
        line.drop_last()
    } else {
        line
    }
}

/// The lines of `s`. A line ends at a line feed, which is left out together
/// with a carriage return just before it; the last line may lack a line
/// feed; an empty text has no line.
pub open spec fn lines(s: Seq<char>) -> Seq<Seq<char>>
    decreases s.len(),
{
    if s.len() == 0 {
        Seq::empty()
    } else {
        let k = first_index(s, '\n') as int;
        if k < s.len() {
            seq![without_return(s.take(k))] + lines(s.skip(k + 1))
        } else {
            seq![s]
        }
    }
}

/// The parts written one after another with `sep` between them.
pub open spec fn join(parts: Seq<Seq<char>>, sep: Seq<char>) -> Seq<char>
    decreases parts.len(),
{
    if parts.len() == 0 {
        Seq::empty()
    } else if parts.len() == 1 {
        parts[0]
    } else {
        join(parts.drop_last(), sep) + sep + parts.last()
    }
}

pub open spec fn line_feed() -> Seq<char> {
    seq!['\n']
}

/// Every line loses its trailing whitespace, and the whole loses leading
/// and trailing whitespace.
pub open spec fn tidied(s: Seq<char>) -> Seq<char> {
    trimmed(join(lines(s).map_values(|line: Seq<char>| strip_end(line, is_space())), line_feed()))
}

pub proof fn lemma_first_index_is(s: Seq<char>, c: char, n: int)
    requires
        0 <= n <= s.len(),
        forall|k: int| 0 <= k < n ==> #[trigger] s[k] != c,
        n < s.len() ==> s[n] == c,
    ensures
        first_index(s, c) == n,
    decreases s.len(),
{
    if n > 0 {
        let rest = s.drop_first();
        assert(s[0] != c);
        assert forall|k: int| 0 <= k < n - 1 implies #[trigger] rest[k] != c by {
            assert(rest[k] == s[k + 1]);
        }
        if n < s.len() {
            assert(rest[n - 1] == s[n]);
        }
        lemma_first_index_is(rest, c, n - 1);
    }
}

/// `text` with every line's trailing whitespace and the whole's leading and
/// trailing whitespace left off.
pub fn tidy(text: &str) -> (tidy: String)
    ensures
        tidy@ == tidied(text@),
{
    let chars = chars_of(text);
    let n = chars.len();
    let mut out: Vec<char> = Vec::new();
    let mut pos: usize = 0;
    let mut first = true;
    let ghost done: Seq<Seq<char>> = Seq::empty();
    let ghost cut = |line: Seq<char>| strip_end(line, is_space());
    proof {
        assert(chars@.skip(0) =~= chars@);
        assert(Seq::<Seq<char>>::empty() + lines(chars@) =~= lines(chars@));
    }
    while pos < n
        invariant
            pos <= n == chars.len(),
            cut == |line: Seq<char>| strip_end(line, is_space()),
            lines(chars@) == done + lines(chars@.skip(pos as int)),
            out@ == join(done.map_values(cut), line_feed()),
            first <==> done.len() == 0,
        decreases n - pos,
    {
        let mut k: usize = pos;
        while k < n && chars[k] != '\n'
            invariant
                pos <= k <= n == chars.len(),
                forall|j: int| pos <= j < k ==> #[trigger] chars@[j] != '\n',
            decreases n - k,
        {
            k += 1;
        }
        let line_end = if k < n && k > pos && chars[k - 1] == '\r' {
            k - 1
        } else {
            k
        };
        let kept = space_trimmed_end(&chars, pos, line_end);
        let ghost rest = chars@.skip(pos as int);
        let ghost line = chars@.subrange(pos as int, line_end as int);
        let ghost next: int = if k < n { k + 1 } else { n as int };
        proof {
            assert forall|j: int| 0 <= j < k - pos implies #[trigger] rest[j] != '\n' by {
                assert(rest[j] == chars@[pos + j]);
            }
            lemma_first_index_is(rest, '\n', k - pos);
            if k < n {
                assert(rest.take(k - pos) =~= chars@.subrange(pos as int, k as int));
                assert(without_return(rest.take(k - pos)) =~= line);
                assert(rest.skip(k - pos + 1) =~= chars@.skip(next));
            } else {
                assert(rest =~= line);
                assert(chars@.skip(next) =~= Seq::<char>::empty());
                assert(lines(chars@.skip(next)) =~= Seq::<Seq<char>>::empty());
            }
            assert(lines(rest) =~= seq![line] + lines(chars@.skip(next)));
            assert(lines(chars@) =~= done.push(line) + lines(chars@.skip(next)));
        }
        let ghost before = out@;
        if !first {
            out.push('\n');
        }
        let mut j: usize = pos;
        while j < kept
            invariant
                pos <= j <= kept <= chars.len(),
                out@ == before + (if first {
                    Seq::<char>::empty()
                } else {
                    line_feed()
                }) + chars@.subrange(pos as int, j as int),
            decreases kept - j,
        {
            out.push(chars[j]);
            assert(chars@.subrange(pos as int, j + 1) =~= chars@.subrange(pos as int, j as int).push(
                chars@[j as int],
            ));
            j += 1;
        }
        proof {
            let parts = done.push(line).map_values(cut);
            assert(parts.drop_last() =~= done.map_values(cut));
            assert(parts.last() == strip_end(line, is_space()));
            if first {
                assert(out@ =~= parts[0]);
            }
            assert(out@ =~= join(parts, line_feed()));
            done = done.push(line);
        }
        first = false;
        pos = if k < n {
            k + 1
        } else {
            n
        };
    }
    proof {
        assert(chars@.skip(pos as int) =~= Seq::<char>::empty());
        assert(done + lines(chars@.skip(pos as int)) =~= done);
    }
    let end = space_trimmed_end(&out, 0, out.len());
    let start = space_trimmed_start(&out, 0, end);
    proof {
        assert(out@.subrange(0, out.len() as int) =~= out@);
        let kept = strip_end(out@, is_space());
        assert(out@.subrange(start as int, end as int) =~= kept.skip(leading(kept, is_space()) as int));
    }
    sub_string(&out, start, end)
}

} // verus!
