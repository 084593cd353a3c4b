//! Text made safe to stand in a page.

use crate::text::chars_of;
use vstd::prelude::*;
use vstd::string::StringExecFns;

verus! {

/// What is written for one character: the five characters that mean something
/// to a browser are written as entities, every other character as itself.
pub open spec fn escape_char(c: char) -> Seq<char> {
    if c == '&' {
        "&amp;"@
    } else if c == '<' {
        "&lt;"@
    } else if c == '>' {
        "&gt;"@
    } else if c == '"' {
        "&quot;"@
    } else if c == '\'' {
        "&#39;"@
    } else {
        seq![c]
    }
}

/// What is written for a text: what is written for each of its characters.
pub open spec fn escape(text: Seq<char>) -> Seq<char>
    decreases text.len(),
{
    if text.len() == 0 {
        Seq::empty()
    } else {
        escape(text.drop_last()) + escape_char(text.last())
    }
}

/// A character that can end a value or start a tag.
pub open spec fn is_markup(c: char) -> bool {
    c == '<' || c == '>' || c == '"' || c == '\''
}

/// Writes a text to the buffer, escaped.
pub fn escape_into(buffer: &mut String, text: &str)
    ensures
        final(buffer)@ == old(buffer)@ + escape(text@),
{
    let chars = chars_of(text);
    let mut i: usize = 0;
    assert(old(buffer)@ + escape(chars@.take(0)) =~= old(buffer)@);
    while i < chars.len()
        invariant
            i <= chars.len(),
            chars@ == text@,
            buffer@ == old(buffer)@ + escape(chars@.take(i as int)),
        decreases chars.len() - i,
    {
        let c = chars[i];
        if c == '&' {
            buffer.append("&amp;");
        } else if c == '<' {
            buffer.append("&lt;");
        } else if c == '>' {
            buffer.append("&gt;");
        } else if c == '"' {
            buffer.append("&quot;");
        } else if c == '\'' {
            buffer.append("&#39;");
        } else {
            buffer.push(c);
        }
        proof {
            assert(chars@.take(i + 1).drop_last() =~= chars@.take(i as int));
            assert(buffer@ =~= old(buffer)@ + escape(chars@.take(i + 1)));
        }
        i += 1;
    }
    assert(chars@.take(i as int) =~= chars@);
}

proof fn lemma_escape_char_is_inert(c: char)
    ensures
        forall|i: int|
            0 <= i < escape_char(c).len() ==> !is_markup(#[trigger] escape_char(c)[i]),
{
    reveal_strlit("&amp;");
    reveal_strlit("&lt;");
    reveal_strlit("&gt;");
    reveal_strlit("&quot;");
    reveal_strlit("&#39;");
}

/// An escaped text holds no character that could end a value or start a tag,
/// whatever the text was.
pub proof fn lemma_escape_is_inert(text: Seq<char>)
    ensures
        forall|i: int| 0 <= i < escape(text).len() ==> !is_markup(#[trigger] escape(text)[i]),
    decreases text.len(),
{
    if text.len() > 0 {
        let head = escape(text.drop_last());
        let tail = escape_char(text.last());
        lemma_escape_is_inert(text.drop_last());
        lemma_escape_char_is_inert(text.last());
        assert forall|i: int| 0 <= i < escape(text).len() implies !is_markup(
            #[trigger] escape(text)[i],
        ) by {
            if i < head.len() {
                assert(escape(text)[i] == head[i]);
            } else {
                assert(escape(text)[i] == tail[i - head.len()]);
            }
        }
    }
}

/// A text without any of the five characters is written as it is.
pub proof fn lemma_escape_plain(text: Seq<char>)
    requires
        forall|i: int| 0 <= i < text.len() ==> !is_markup(#[trigger] text[i]) && text[i] != '&',
    ensures
        escape(text) == text,
    decreases text.len(),
{
    if text.len() > 0 {
        lemma_escape_plain(text.drop_last());
        assert(escape(text) =~= text);
    }
}

} // verus!
