//! The whitelist of plugins: how names are added to it, and the text of a
//! variable that lists names.
use crate::text::lowercase;
use vstd::prelude::*;

verus! {

/// The names that a text lists: its pieces between blanks, commas and
/// semicolons, from the left. Two of these characters side by side have an
/// empty name between them.
pub open spec fn listed_names(text: Seq<char>) -> Seq<Seq<char>>
    decreases text.len(),
{
    let at = first_break(text, 0);
    if at < 0 || at >= text.len() {
        seq![text]
    } else {
        seq![text.subrange(0, at)] + listed_names(text.subrange(at + 1, text.len() as int))
    }
}

/// `true` for a character that parts the names of a list: a blank, a comma
/// or a semicolon.
pub open spec fn is_break(c: char) -> bool {
    c == ' ' || c == ',' || c == ';'
}

/// The least index at or after `from` of a character that parts names, or
/// the length of the text where there is none.
pub open spec fn first_break(text: Seq<char>, from: int) -> int
    decreases text.len() - from,
{
    if from < 0 || from >= text.len() {
        text.len() as int
    } else if is_break(text[from]) {
        from
    } else {
        first_break(text, from + 1)
    }
}

/// What `first_break` finds lies between `from` and the end of the text.
pub proof fn lemma_first_break(text: Seq<char>, from: int)
    requires
        0 <= from <= text.len(),
    ensures
        from <= first_break(text, from) <= text.len(),
        first_break(text, from) < text.len() ==> is_break(text[first_break(text, from)]),
    decreases text.len() - from,
{
    if from < text.len() && !is_break(text[from]) {
        lemma_first_break(text, from + 1);
    }
}

/// Searching the rest of a text finds what searching the whole text from
/// the cut finds.
pub proof fn lemma_first_break_in_suffix(text: Seq<char>, start: int, from: int)
    requires
        0 <= start <= text.len(),
        0 <= from <= text.len() - start,
    ensures
        first_break(text.subrange(start, text.len() as int), from) + start == first_break(
            text,
            start + from,
        ),
    decreases text.len() - start - from,
{
    if from < text.len() - start {
        lemma_first_break_in_suffix(text, start, from + 1);
    }
}

/// The names that a text lists: see [`listed_names`].
pub fn split_names(text: &str) -> (names: Vec<String>)
    ensures
        names.deep_view() == listed_names(text@),
{
    let chars = crate::text::chars_of(text);
    let n = chars.len();
    let mut names: Vec<String> = Vec::new();
    let mut start: usize = 0;
    proof {
        assert(text@.subrange(0, n as int) =~= text@);
        assert(names.deep_view() + listed_names(text@) =~= listed_names(text@));
    }
    loop
        invariant
            start <= n,
            n == chars@.len(),
            chars@ == text@,
            names.deep_view() + listed_names(text@.subrange(start as int, n as int)) == listed_names(
                text@,
            ),
        decreases n - start,
    {
        let ghost suffix = text@.subrange(start as int, n as int);
        let ghost before = names.deep_view();
        let mut at: usize = start;
        while at < n && !(chars[at] == ' ' || chars[at] == ',' || chars[at] == ';')
            invariant
                start <= at <= n,
                n == chars@.len(),
                chars@ == text@,
                first_break(text@, start as int) == first_break(text@, at as int),
            decreases n - at,
        {
            at += 1;
        }
        proof {
            lemma_first_break_in_suffix(text@, start as int, 0);
            lemma_first_break(text@, at as int);
        }
        if at >= n {
            names.push(text.substring_char(start, n).to_owned());
            proof {
                assert(names.deep_view() =~= before + seq![suffix]);
            }
            return names;
        }
        names.push(text.substring_char(start, at).to_owned());
        proof {
            let rest = suffix.subrange(at - start + 1, suffix.len() as int);
            assert(rest =~= text@.subrange(at + 1, n as int));
            assert(suffix.subrange(0, at - start) =~= text@.subrange(start as int, at as int));
            assert(names.deep_view() =~= before + seq![suffix.subrange(0, at - start)]);
            assert(names.deep_view() + listed_names(rest) =~= before + listed_names(suffix));
        }
        start = at + 1;
    }
}

/// The whitelist that the text of a variable asks for: nothing where the
/// text, trimmed, is empty; else the names that the trimmed text, in lower
/// case, lists.
pub open spec fn whitelist_text_names(text: Seq<char>) -> Seq<Seq<char>> {
    let value = lowercase(crate::text::trimmed(text));
    if value.len() == 0 {
        Seq::<Seq<char>>::empty()
    } else {
        listed_names(value)
    }
}

/// The whitelist after one more name: a list that holds the name stays as it
/// is, another gets it at the end, and without a list the name makes one.
pub open spec fn whitelist_with(whitelist: Option<Seq<Seq<char>>>, name: Seq<char>) -> Option<
    Seq<Seq<char>>,
> {
    match whitelist {
        Some(list) => if list.contains(name) {
            Some(list)
        } else {
            Some(list.push(name))
        },
        None => Some(seq![name]),
    }
}

/// The whitelist after a list of names, each added in lower case in turn.
pub open spec fn whitelist_with_all(whitelist: Option<Seq<Seq<char>>>, names: Seq<Seq<char>>) -> Option<
    Seq<Seq<char>>,
>
    decreases names.len(),
{
    if names.len() == 0 {
        whitelist
    } else {
        whitelist_with(whitelist_with_all(whitelist, names.drop_last()), lowercase(names.last()))
    }
}

} // verus!
