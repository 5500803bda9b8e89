//! The one thing between a caller's text and a markup document that would otherwise execute it.
//!
//! Five characters leave text and become markup: `&`, `<` and `>` for element content, `"` and
//! `'` for attribute values. They are escaped everywhere, because "which context is this?" is a
//! question a writer several calls down cannot answer. Nothing else is touched: a control
//! character is not markup, cannot leave its element, and is passed through.

use vstd::prelude::*;
use crate::text::{push_char, push_chars};

verus! {

broadcast use vstd::string::group_string_axioms;

/// Whether `character` is one that would stop being text in a markup document.
pub open spec fn is_markup(character: char) -> bool {
    character == '&' || character == '<' || character == '>' || character == '"' || character
        == '\''
}

/// The character reference `character` is written as.
///
/// `&#39;` rather than `&apos;`: the named form is XML's and HTML 4 did not have it, so the
/// numeric reference is the one every parser has always understood.
pub open spec fn entity_spec(character: char) -> Seq<char> {
    if character == '&' {
        seq!['&', 'a', 'm', 'p', ';']
    } else if character == '<' {
        seq!['&', 'l', 't', ';']
    } else if character == '>' {
        seq!['&', 'g', 't', ';']
    } else if character == '"' {
        seq!['&', 'q', 'u', 'o', 't', ';']
    } else {
        seq!['&', '#', '3', '9', ';']
    }
}

/// What one character is written as: its reference if it is markup, itself otherwise.
pub open spec fn escape_char(character: char) -> Seq<char> {
    if is_markup(character) {
        entity_spec(character)
    } else {
        seq![character]
    }
}

/// `text` with every markup character replaced by its reference.
pub open spec fn escape_spec(text: Seq<char>) -> Seq<char>
    decreases text.len(),
{
    if text.len() == 0 {
        Seq::empty()
    } else {
        escape_spec(text.drop_last()) + escape_char(text.last())
    }
}

/// Every character that leaves text and becomes markup.
pub fn escaped() -> (characters: [char; 5])
    ensures
        characters@ == seq!['&', '<', '>', '"', '\''],
{
    ['&', '<', '>', '"', '\'']
}

/// What one of [`escaped`]'s characters is written as, and `None` for anything else.
pub fn entity_of(character: char) -> (entity: Option<&'static str>)
    ensures
        entity is Some <==> is_markup(character),
        entity matches Some(reference) ==> reference@ == entity_spec(character),
{
    if character == '&' {
        proof {
            reveal_strlit("&amp;");
        }
        Some("&amp;")
    } else if character == '<' {
        proof {
            reveal_strlit("&lt;");
        }
        Some("&lt;")
    } else if character == '>' {
        proof {
            reveal_strlit("&gt;");
        }
        Some("&gt;")
    } else if character == '"' {
        proof {
            reveal_strlit("&quot;");
        }
        Some("&quot;")
    } else if character == '\'' {
        proof {
            reveal_strlit("&#39;");
        }
        Some("&#39;")
    } else {
        None
    }
}

/// Appends `text` to `out`, each markup character as its reference and every other as itself.
pub fn escape_into(out: &mut String, text: &str)
    ensures
        final(out)@ == old(out)@ + escape_spec(text@),
{
    let ghost start = out@;
    for character in it: text.chars()
        invariant
            it.seq() == text@,
            out@ == start + escape_spec(it.seq().take(it.index() as int)),
    {
        let ghost before = it.seq().take(it.index() as int);
        proof {
            let after = it.seq().take(it.index() + 1);
            assert(after.drop_last() == before);
            assert(after.last() == character);
        }
        match entity_of(character) {
            Some(reference) => push_chars(out, reference),
            None => push_char(out, character),
        }
        proof {
            assert(out@ == start + escape_spec(it.seq().take(it.index() + 1)));
        }
    }
    proof {
        assert(text@.take(text@.len() as int) == text@);
    }
}

/// `text` escaped, as a new string.
pub fn escape(text: &str) -> (escaped: String)
    ensures
        escaped@ == escape_spec(text@),
{
    let mut out = String::new();
    escape_into(&mut out, text);
    proof {
        assert(Seq::<char>::empty() + escape_spec(text@) == escape_spec(text@));
    }
    out
}

/// Escaping two pieces one after the other is escaping them joined.
pub proof fn lemma_escape_concat(first: Seq<char>, second: Seq<char>)
    ensures
        escape_spec(first + second) == escape_spec(first) + escape_spec(second),
    decreases second.len(),
{
    if second.len() == 0 {
        assert(first + second == first);
        assert(escape_spec(first) + Seq::empty() == escape_spec(first));
    } else {
        lemma_escape_concat(first, second.drop_last());
        assert((first + second).drop_last() == first + second.drop_last());
        assert((first + second).last() == second.last());
    }
}

/// What comes out of the escaper is text in every context: it holds no `<`, `>`, `"` or `'`, and
/// every `&` in it begins a character reference rather than standing for itself.
pub proof fn law_escaped_text_holds_no_markup(text: Seq<char>)
    ensures
        forall|i: int|
            0 <= i < escape_spec(text).len() ==> {
                let c = #[trigger] escape_spec(text)[i];
                c != '<' && c != '>' && c != '"' && c != '\''
            },
    decreases text.len(),
{
    if text.len() > 0 {
        law_escaped_text_holds_no_markup(text.drop_last());
        let head = escape_spec(text.drop_last());
        let tail = escape_char(text.last());
        assert forall|i: int| 0 <= i < escape_spec(text).len() implies {
            let c = #[trigger] escape_spec(text)[i];
            c != '<' && c != '>' && c != '"' && c != '\''
        } by {
            if i >= head.len() {
                assert(escape_spec(text)[i] == tail[i - head.len()]);
            } else {
                assert(escape_spec(text)[i] == head[i]);
            }
        }
    }
}

/// Text with no markup character in it comes out exactly as it went in.
pub proof fn law_plain_text_is_left_alone(text: Seq<char>)
    requires
        forall|i: int| 0 <= i < text.len() ==> !is_markup(#[trigger] text[i]),
    ensures
        escape_spec(text) == text,
    decreases text.len(),
{
    if text.len() > 0 {
        law_plain_text_is_left_alone(text.drop_last());
        assert(!is_markup(text[text.len() - 1]));
        assert(text.drop_last().push(text.last()) == text);
    }
}

/// Escaping a character reference again escapes its own leading `&` and nothing else: an
/// already-escaped run is never mistaken for markup and silently passed through.
pub proof fn law_escaping_a_reference_again_escapes_only_its_ampersand(character: char)
    requires
        is_markup(character),
    ensures
        escape_spec(entity_spec(character)) == entity_spec('&') + entity_spec(character).drop_first(),
{
    let reference = entity_spec(character);
    let rest = reference.drop_first();
    assert(reference == seq!['&'] + rest);
    lemma_escape_concat(seq!['&'], rest);
    let amp = seq!['&'];
    assert(amp.drop_last() == Seq::<char>::empty());
    assert(amp.last() == '&');
    assert(escape_spec(Seq::<char>::empty()) == Seq::<char>::empty());
    assert(Seq::<char>::empty() + entity_spec('&') == entity_spec('&'));
    assert(escape_spec(amp) == entity_spec('&'));
    assert forall|i: int| 0 <= i < rest.len() implies !is_markup(#[trigger] rest[i]) by {}
    law_plain_text_is_left_alone(rest);
}

} // verus!
