//! HTML text: escaping, and a line buffer whose depth decides each line's
//! indentation.

use vstd::prelude::*;

use crate::text::{push_char, push_str};

verus! {

/// One level of indentation.
pub open spec fn indent(d: nat) -> Seq<char>
    decreases d,
{
    if d == 0 {
        seq![]
    } else {
        indent((d - 1) as nat) + "  "@
    }
}

/// One output line: indentation for depth `d`, the markup, a newline.
pub open spec fn ln(d: nat, markup: Seq<char>) -> Seq<char> {
    indent(d) + markup + seq!['\n']
}

/// How one character of text appears in HTML: `&`, `<`, `>` and `"` escaped.
pub open spec fn escape_char(c: char) -> Seq<char> {
    if c == '&' {
        "&amp;"@
    } else if c == '<' {
        "&lt;"@
    } else if c == '>' {
        "&gt;"@
    } else if c == '"' {
        "&quot;"@
    } else {
        seq![c]
    }
}

/// Text escaped for HTML.
pub open spec fn escape(s: Seq<char>) -> Seq<char>
    decreases s.len(),
{
    if s.len() == 0 {
        seq![]
    } else {
        escape(s.drop_last()) + escape_char(s.last())
    }
}

/// One character of paragraph text: escaped, and a line break written `<br>`.
pub open spec fn text_char(c: char) -> Seq<char> {
    if c == '\n' {
        "<br>"@
    } else {
        escape_char(c)
    }
}

/// Paragraph text in HTML: escaped, line breaks written `<br>`.
pub open spec fn text_html(s: Seq<char>) -> Seq<char>
    decreases s.len(),
{
    if s.len() == 0 {
        seq![]
    } else {
        text_html(s.drop_last()) + text_char(s.last())
    }
}

/// Appends `s` escaped for HTML to `out`; with `breaks`, line breaks become
/// `<br>`.
pub fn push_escaped(out: &mut String, s: &str, breaks: bool)
    ensures
        final(out)@ == old(out)@ + if breaks {
            text_html(s@)
        } else {
            escape(s@)
        },
{
    let v = crate::text::chars_of(s);
    let mut i: usize = 0;
    assert(v@.take(0) =~= Seq::<char>::empty());
    while i < v.len()
        invariant
            0 <= i <= v.len(),
            v@ == s@,
            out@ == old(out)@ + if breaks {
                text_html(v@.take(i as int))
            } else {
                escape(v@.take(i as int))
            },
        decreases v.len() - i,
    {
        let c = v[i];
        if breaks && c == '\n' {
            push_str(out, "<br>");
        } else if c == '&' {
            push_str(out, "&amp;");
        } else if c == '<' {
            push_str(out, "&lt;");
        } else if c == '>' {
            push_str(out, "&gt;");
        } else if c == '"' {
            push_str(out, "&quot;");
        } else {
            push_char(out, c);
        }
        assert(v@.take(i + 1).drop_last() =~= v@.take(i as int));
        i = i + 1;
    }
    assert(v@.take(v@.len() as int) =~= v@);
}

/// `s` escaped for HTML.
pub fn escaped(s: &str) -> (r: String)
    ensures
        r@ == escape(s@),
{
    let mut r = String::new();
    push_escaped(&mut r, s, false);
    assert(r@ =~= escape(s@));
    r
}

/// A line buffer for HTML; `depth` decides the indentation of each line.
pub struct Html {
    pub output: String,
    pub depth: usize,
}

impl Html {
    /// An empty buffer at depth 0.
    pub fn new() -> (h: Html)
        ensures
            h.output@ == Seq::<char>::empty(),
            h.depth == 0,
    {
        Html { output: String::new(), depth: 0 }
    }

    /// Writes one line of markup at the current depth.
    pub fn line(&mut self, markup: &str)
        ensures
            final(self).output@ == old(self).output@ + ln(old(self).depth as nat, markup@),
            final(self).depth == old(self).depth,
    {
        let ghost start = self.output@;
        let mut i: usize = 0;
        assert(indent(0) =~= Seq::<char>::empty());
        assert(start =~= start + indent(0));
        while i < self.depth
            invariant
                0 <= i <= self.depth,
                self.depth == old(self).depth,
                start == old(self).output@,
                self.output@ == start + indent(i as nat),
            decreases self.depth - i,
        {
            push_str(&mut self.output, "  ");
            i = i + 1;
            assert(self.output@ =~= start + indent(i as nat));
        }
        push_str(&mut self.output, markup);
        push_char(&mut self.output, '\n');
        assert(self.output@ =~= start + ln(self.depth as nat, markup@));
    }

    /// Writes an opening tag, then deepens the following lines by one level.
    pub fn open(&mut self, markup: &str)
        requires
            old(self).depth < usize::MAX,
        ensures
            final(self).output@ == old(self).output@ + ln(old(self).depth as nat, markup@),
            final(self).depth == old(self).depth + 1,
    {
        self.line(markup);
        self.depth = self.depth + 1;
    }

    /// Goes back one level, then writes a closing tag.
    pub fn close(&mut self, markup: &str)
        requires
            old(self).depth >= 1,
        ensures
            final(self).output@ == old(self).output@ + ln((old(self).depth - 1) as nat, markup@),
            final(self).depth == old(self).depth - 1,
    {
        self.depth = self.depth - 1;
        self.line(markup);
    }

    /// The HTML written.
    pub fn finish(self) -> (r: String)
        ensures
            r@ == self.output@,
    {
        self.output
    }
}

/// `c` cannot open or close markup or an attribute value.
pub open spec fn inert(c: char) -> bool {
    c != '<' && c != '>' && c != '"'
}

/// Escaped text holds no character that could open or close markup or an
/// attribute value: text escaped from a document never becomes markup.
pub proof fn law_escaped_text_is_inert(s: Seq<char>)
    ensures
        forall|i: int| 0 <= i < escape(s).len() ==> inert(#[trigger] escape(s)[i]),
    decreases s.len(),
{
    reveal_strlit("&amp;");
    reveal_strlit("&lt;");
    reveal_strlit("&gt;");
    reveal_strlit("&quot;");
    if s.len() > 0 {
        law_escaped_text_is_inert(s.drop_last());
        let c = s.last();
        let a = escape(s.drop_last());
        let b = escape_char(c);
        assert forall|i: int| 0 <= i < escape(s).len() implies inert(#[trigger] escape(s)[i]) by {
            if i < a.len() {
                assert(escape(s)[i] == a[i]);
            } else {
                assert(escape(s)[i] == b[i - a.len()]);
            }
        }
    }
}

/// Whether `c` is one of the characters that escaping rewrites.
pub open spec fn special(c: char) -> bool {
    c == '&' || c == '<' || c == '>' || c == '"'
}

/// Escaped text read back: `&amp;`, `&lt;`, `&gt;` and `&quot;` become the
/// character they stand for, read from the front; any other character stays.
pub open spec fn unescape(t: Seq<char>) -> Seq<char>
    decreases t.len(),
{
    if t.len() == 0 {
        seq![]
    } else if t.len() >= 5 && t.subrange(0, 5) == "&amp;"@ {
        seq!['&'] + unescape(t.subrange(5, t.len() as int))
    } else if t.len() >= 4 && t.subrange(0, 4) == "&lt;"@ {
        seq!['<'] + unescape(t.subrange(4, t.len() as int))
    } else if t.len() >= 4 && t.subrange(0, 4) == "&gt;"@ {
        seq!['>'] + unescape(t.subrange(4, t.len() as int))
    } else if t.len() >= 6 && t.subrange(0, 6) == "&quot;"@ {
        seq!['"'] + unescape(t.subrange(6, t.len() as int))
    } else {
        seq![t[0]] + unescape(t.drop_first())
    }
}

proof fn lemma_escape_concat(a: Seq<char>, b: Seq<char>)
    ensures
        escape(a + b) == escape(a) + escape(b),
    decreases b.len(),
{
    if b.len() > 0 {
        assert((a + b).drop_last() =~= a + b.drop_last());
        lemma_escape_concat(a, b.drop_last());
    } else {
        assert(a + b =~= a);
    }
}

proof fn lemma_escape_front(s: Seq<char>)
    requires
        s.len() > 0,
    ensures
        escape(s) == escape_char(s[0]) + escape(s.drop_first()),
{
    assert(s =~= seq![s[0]] + s.drop_first());
    lemma_escape_concat(seq![s[0]], s.drop_first());
    assert(seq![s[0]].drop_last() =~= Seq::<char>::empty());
    assert(escape(seq![s[0]]) =~= escape(Seq::<char>::empty()) + escape_char(s[0]));
}

proof fn lemma_escape_len(s: Seq<char>)
    ensures
        escape(s).len() >= s.len(),
        (exists|i: int| 0 <= i < s.len() && special(#[trigger] s[i])) ==> escape(s).len() > s.len(),
        (forall|i: int| 0 <= i < s.len() ==> !special(#[trigger] s[i])) ==> escape(s) == s,
    decreases s.len(),
{
    reveal_strlit("&amp;");
    reveal_strlit("&lt;");
    reveal_strlit("&gt;");
    reveal_strlit("&quot;");
    if s.len() > 0 {
        let t = s.drop_last();
        lemma_escape_len(t);
        if exists|i: int| 0 <= i < s.len() && special(#[trigger] s[i]) {
            let i = choose|i: int| 0 <= i < s.len() && special(#[trigger] s[i]);
            if i < t.len() {
                assert(special(t[i]));
            }
        }
        if forall|i: int| 0 <= i < s.len() ==> !special(#[trigger] s[i]) {
            assert forall|i: int| 0 <= i < t.len() implies !special(#[trigger] t[i]) by {
                assert(t[i] == s[i]);
            }
            assert(!special(s[s.len() - 1]));
            assert(s =~= t.push(s.last()));
        }
    }
}

/// Escaping loses nothing and touches only what it must: reading escaped
/// text back gives the text again, and text without `&`, `<`, `>` or `"` is
/// its own escape (and only such text).
pub proof fn law_escaping_round_trips(s: Seq<char>)
    ensures
        unescape(escape(s)) == s,
        escape(s) == s <==> (forall|i: int| 0 <= i < s.len() ==> !special(#[trigger] s[i])),
    decreases s.len(),
{
    reveal_strlit("&amp;");
    reveal_strlit("&lt;");
    reveal_strlit("&gt;");
    reveal_strlit("&quot;");
    lemma_escape_len(s);
    if s.len() > 0 {
        let c = s[0];
        let rest = s.drop_first();
        law_escaping_round_trips(rest);
        lemma_escape_front(s);
        let e = escape_char(c);
        let t = e + escape(rest);
        assert(t.subrange(e.len() as int, t.len() as int) =~= escape(rest));
        assert(t.len() >= 5 ==> t.subrange(0, 5)[1] == t[1]);
        assert(t.len() >= 4 ==> t.subrange(0, 4)[1] == t[1]);
        assert(t.len() >= 6 ==> t.subrange(0, 6)[1] == t[1]);
        assert(t.len() >= 5 ==> t.subrange(0, 5)[0] == t[0]);
        assert(t.len() >= 4 ==> t.subrange(0, 4)[0] == t[0]);
        assert(t.len() >= 6 ==> t.subrange(0, 6)[0] == t[0]);
        if c == '&' {
            assert(t.subrange(0, 5) =~= "&amp;"@);
        } else if c == '<' {
            assert(t.subrange(0, 4) =~= "&lt;"@);
            assert(t[1] == 'l');
        } else if c == '>' {
            assert(t.subrange(0, 4) =~= "&gt;"@);
            assert(t[1] == 'g');
        } else if c == '"' {
            assert(t.subrange(0, 6) =~= "&quot;"@);
            assert(t[1] == 'q');
        } else {
            assert(t[0] == c);
            assert(t.drop_first() =~= escape(rest));
        }
        assert(s =~= seq![c] + rest);
    }
}

} // verus!
