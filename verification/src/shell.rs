//! Text quoted for the shell, so that a copied path can be pasted.

use vstd::prelude::*;

use crate::text::{chars_of, text_of};

verus! {

/// Whether a character means itself to every shell.
pub open spec fn is_plain(c: char) -> bool {
    ||| 'a' <= c <= 'z'
    ||| 'A' <= c <= 'Z'
    ||| '0' <= c <= '9'
    ||| c == '/' || c == '.' || c == '_' || c == '-' || c == '+' || c == ',' || c == ':' || c == '@'
        || c == '%'
}

/// Whether a text can stand as it is: it is not empty, and all of it is plain.
pub open spec fn stands(text: Seq<char>) -> bool {
    text.len() > 0 && forall|i: int| 0 <= i < text.len() ==> is_plain(#[trigger] text[i])
}

/// A character between single quotes: a quote ends them, stands escaped, and starts them again.
pub open spec fn escaped_char(c: char) -> Seq<char> {
    if c == '\'' {
        seq!['\'', '\\', '\'', '\'']
    } else {
        seq![c]
    }
}

/// A text between single quotes.
pub open spec fn escaped(text: Seq<char>) -> Seq<char>
    decreases text.len(),
{
    if text.len() == 0 {
        Seq::empty()
    } else {
        escaped_char(text[0]) + escaped(text.drop_first())
    }
}

/// A text quoted for the shell, where it has to be.
pub open spec fn quoted(text: Seq<char>) -> Seq<char> {
    if stands(text) {
        text
    } else {
        seq!['\''] + escaped(text) + seq!['\'']
    }
}

/// What the shell reads in a word, from outside quotes.
pub open spec fn read_plain(word: Seq<char>) -> Seq<char>
    decreases word.len(),
{
    if word.len() == 0 {
        Seq::empty()
    } else if word[0] == '\'' {
        read_quoted(word.skip(1))
    } else if word[0] == '\\' && word.len() > 1 {
        seq![word[1]] + read_plain(word.skip(2))
    } else {
        seq![word[0]] + read_plain(word.skip(1))
    }
}

/// What the shell reads in a word, from between single quotes.
pub open spec fn read_quoted(word: Seq<char>) -> Seq<char>
    decreases word.len(),
{
    if word.len() == 0 {
        Seq::empty()
    } else if word[0] == '\'' {
        read_plain(word.skip(1))
    } else {
        seq![word[0]] + read_quoted(word.skip(1))
    }
}

proof fn plain_text_is_read_as_it_is(text: Seq<char>)
    requires
        forall|i: int| 0 <= i < text.len() ==> is_plain(#[trigger] text[i]),
    ensures
        read_plain(text) == text,
    decreases text.len(),
{
    if text.len() > 0 {
        assert(is_plain(text[0]));
        assert forall|i: int| 0 <= i < text.skip(1).len() implies is_plain(
            #[trigger] text.skip(1)[i],
        ) by {
            assert(is_plain(text[i + 1]));
        }
        plain_text_is_read_as_it_is(text.skip(1));
        assert(seq![text[0]] + text.skip(1) =~= text);
    }
}

proof fn escaped_text_is_read_back(text: Seq<char>)
    ensures
        read_quoted(escaped(text) + seq!['\'']) == text,
    decreases text.len(),
{
    let end = seq!['\''];
    if text.len() == 0 {
        assert(escaped(text) + end =~= end);
        assert(end.skip(1) =~= Seq::empty());
        assert(read_plain(end.skip(1)) =~= Seq::empty());
        assert(read_quoted(end) =~= Seq::empty());
        assert(text =~= Seq::empty());
    } else {
        let rest = text.drop_first();
        let tail = escaped(rest) + end;
        let word = escaped(text) + end;
        escaped_text_is_read_back(rest);
        assert(word =~= escaped_char(text[0]) + tail);
        assert(seq![text[0]] + rest =~= text);
        if text[0] == '\'' {
            assert(word.skip(1) =~= seq!['\\', '\'', '\''] + tail);
            assert(word.skip(1).skip(2) =~= seq!['\''] + tail);
            assert((seq!['\''] + tail).skip(1) =~= tail);
            assert(read_plain(seq!['\''] + tail) == read_quoted(tail));
            assert(read_plain(word.skip(1)) == seq!['\''] + read_plain(word.skip(1).skip(2)));
            assert(read_quoted(word) == read_plain(word.skip(1)));
        } else {
            assert(word.skip(1) =~= tail);
        }
    }
}

/// The shell reads a quoted text back as it was.
pub proof fn the_shell_reads_it_back(text: Seq<char>)
    ensures
        read_plain(quoted(text)) == text,
{
    if stands(text) {
        plain_text_is_read_as_it_is(text);
    } else {
        escaped_text_is_read_back(text);
        assert(quoted(text).skip(1) =~= escaped(text) + seq!['\'']);
    }
}

fn plain(c: char) -> (is: bool)
    ensures
        is == is_plain(c),
{
    ('a' <= c && c <= 'z') || ('A' <= c && c <= 'Z') || ('0' <= c && c <= '9') || c == '/' || c
        == '.' || c == '_' || c == '-' || c == '+' || c == ',' || c == ':' || c == '@' || c == '%'
}

fn can_stand(chars: &Vec<char>) -> (can: bool)
    ensures
        can == stands(chars@),
{
    let mut i: usize = 0;
    while i < chars.len()
        invariant
            i <= chars.len(),
            forall|k: int| 0 <= k < i ==> is_plain(#[trigger] chars@[k]),
        decreases chars.len() - i,
    {
        if !plain(chars[i]) {
            return false;
        }
        i += 1;
    }
    chars.len() > 0
}

/// A text quoted for the shell, where it has to be.
pub fn quote_for_shell(text: &str) -> (word: String)
    ensures
        word@ == quoted(text@),
{
    let chars = chars_of(text);
    if can_stand(&chars) {
        return text.to_owned();
    }
    let mut word: Vec<char> = Vec::new();
    word.push('\'');
    let mut i: usize = 0;
    assert(text@.skip(0) =~= text@);
    assert(word@ + escaped(text@.skip(0)) =~= seq!['\''] + escaped(text@));
    while i < chars.len()
        invariant
            i <= chars.len(),
            chars@ == text@,
            word@ + escaped(text@.skip(i as int)) == seq!['\''] + escaped(text@),
        decreases chars.len() - i,
    {
        let ghost before = word@;
        let c: char = chars[i];
        assert(text@.skip(i as int).drop_first() =~= text@.skip(i + 1));
        assert(text@.skip(i as int)[0] == c);
        word.push(c);
        if c == '\'' {
            word.push('\\');
            word.push('\'');
            word.push('\'');
        }
        assert(word@ =~= before + escaped_char(c));
        i += 1;
        assert(word@ + escaped(text@.skip(i as int)) =~= before + escaped(text@.skip(i - 1)));
    }
    assert(word@ =~= seq!['\''] + escaped(text@)) by {
        assert(text@.skip(i as int) =~= Seq::empty());
        assert(word@ + escaped(text@.skip(i as int)) =~= word@);
    }
    word.push('\'');
    text_of(word.as_slice())
}

/// A word is left as it is only where no character in it means anything to the shell: with a space,
/// a quote, or any other that does, it is quoted whole.
pub proof fn what_means_anything_to_the_shell_is_quoted(text: Seq<char>, i: int)
    requires
        0 <= i < text.len(),
        ({
            let c = text[i];
            ||| c <= ' '
            ||| c == '!' || c == '"' || c == '#' || c == '$' || c == '&' || c == '\''
            ||| c == '(' || c == ')' || c == '*' || c == ';' || c == '<' || c == '=' || c == '>'
            ||| c == '?' || c == '[' || c == '\\' || c == ']' || c == '^' || c == '`'
            ||| c == '{' || c == '|' || c == '}' || c == '~'
            ||| c > '~'
        }),
    ensures
        quoted(text).len() >= text.len() + 2,
        quoted(text)[0] == '\'',
        quoted(text).last() == '\'',
{
    assert(!is_plain(text[i]));
    escaping_only_adds(text);
}

proof fn escaping_only_adds(text: Seq<char>)
    ensures
        escaped(text).len() >= text.len(),
    decreases text.len(),
{
    if text.len() > 0 {
        escaping_only_adds(text.drop_first());
    }
}

/// Letters, digits and the characters of plain paths need no quotes, and nothing needs them to be
/// doubled: such a word is left as it is. An empty one is still a word.
pub proof fn a_plain_path_is_left_as_it_is(text: Seq<char>)
    requires
        text.len() > 0,
        forall|i: int|
            0 <= i < text.len() ==> {
                let c = #[trigger] text[i];
                ||| 'a' <= c <= 'z'
                ||| 'A' <= c <= 'Z'
                ||| '0' <= c <= '9'
                ||| c == '/' || c == '.' || c == '_' || c == '-'
            },
    ensures
        quoted(text) == text,
        quoted(Seq::empty()).len() == 2,
{
    assert(stands(text));
    let none: Seq<char> = Seq::empty();
    assert(quoted(none) =~= seq!['\'', '\'']);
}

} // verus!
