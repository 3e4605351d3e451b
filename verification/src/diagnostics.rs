//! Compiler messages in the output of a build.
use crate::text::{
    contains, has_substring, lemma_replace_absent, owned, replace, replace_seq, to_chars,
};
use vstd::prelude::*;

verus! {

/// `sep` before, between and behind the characters of `s`.
pub open spec fn interleave_seq(s: Seq<char>, sep: Seq<char>) -> Seq<char>
    decreases s.len(),
{
    if s.len() == 0 {
        sep
    } else {
        interleave_seq(s.drop_last(), sep).push(s.last()) + sep
    }
}

fn interleave(s: &str, sep: &str) -> (r: String)
    ensures
        r@ == interleave_seq(s@, sep@),
{
    let chars = to_chars(s);
    let mut r = owned(sep);
    let mut i: usize = 0;
    while i < chars.len()
        invariant
            i <= chars@.len(),
            chars@ == s@,
            r@ == interleave_seq(s@.take(i as int), sep@),
        decreases chars@.len() - i,
    {
        assert(s@.take(i + 1).drop_last() =~= s@.take(i as int));
        r.push(chars[i]);
        r.append(sep);
        i = i + 1;
    }
    assert(s@.take(s@.len() as int) =~= s@);
    r
}

/// The text with the paths of the store's copy of the sources turned into those of
/// the project. An empty prefix stands at every place of the text.
pub open spec fn remapped(text: Seq<char>, src: Seq<char>, project: Seq<char>) -> Seq<char> {
    if src.len() == 0 {
        interleave_seq(text, project)
    } else {
        replace_seq(text, src, project)
    }
}

/// Turns the paths of the store's copy of the sources into those of the project.
pub fn remap_paths(text: &str, src_store_prefix: &str, project_dir_prefix: &str) -> (r: String)
    ensures
        r@ == remapped(text@, src_store_prefix@, project_dir_prefix@),
{
    if src_store_prefix.unicode_len() == 0 {
        interleave(text, project_dir_prefix)
    } else {
        replace(text, src_store_prefix, project_dir_prefix)
    }
}

/// What a line reads as: no compiler message, one without a rendered text, or one with
/// its rendered text.
pub open spec fn message_view(message: Option<Option<String>>) -> Option<Option<Seq<char>>> {
    match message {
        Some(Some(s)) => Some(Some(s@)),
        Some(None) => Some(None),
        None => None,
    }
}

/// Whether a rendered message only counts other messages.
pub open spec fn is_summary(rendered: Seq<char>) -> bool {
    has_substring(rendered, "aborting due to"@) || has_substring(rendered, "warning emitted"@)
        || has_substring(rendered, "warnings emitted"@)
}

/// What becomes of a line: whether it is a compiler message, and what is shown.
pub struct Emitted {
    pub diagnostic: bool,
    pub text: Option<String>,
}

/// What becomes of a line.
pub open spec fn emission(
    message: Option<Option<Seq<char>>>,
    src: Seq<char>,
    project: Seq<char>,
) -> (bool, Option<Seq<char>>) {
    match message {
        None => (false, None),
        Some(None) => (true, None),
        Some(Some(rendered)) => if is_summary(rendered) {
            (true, None)
        } else {
            (true, Some(remapped(rendered, src, project)))
        },
    }
}

impl Emitted {
    pub open spec fn view(&self) -> (bool, Option<Seq<char>>) {
        (
            self.diagnostic,
            match self.text {
                Some(t) => Some(t@),
                None => None,
            },
        )
    }
}

/// Decides what becomes of a line of a build's output. Only compiler messages with a
/// rendered text are shown, with the project's paths in place of those of the store;
/// summaries are not.
///
/// `message` is what the line reads as: `None` if it is no compiler message, else the
/// rendered text if there is one.
pub fn emit_line(
    message: Option<Option<String>>,
    src_store_prefix: &str,
    project_dir_prefix: &str,
) -> (r: Emitted)
    ensures
        r@ == emission(message_view(message), src_store_prefix@, project_dir_prefix@),
{
    match message {
        None => Emitted { diagnostic: false, text: None },
        Some(None) => Emitted { diagnostic: true, text: None },
        Some(Some(rendered)) => if contains(rendered.as_str(), "aborting due to") || contains(
            rendered.as_str(),
            "warning emitted",
        ) || contains(rendered.as_str(), "warnings emitted") {
            Emitted { diagnostic: true, text: None }
        } else {
            Emitted {
                diagnostic: true,
                text: Some(remap_paths(rendered.as_str(), src_store_prefix, project_dir_prefix)),
            }
        },
    }
}

/// A text in which the prefix of the store's copy does not stand stays as it is.
pub proof fn law_other_text_unchanged(text: Seq<char>, src: Seq<char>, project: Seq<char>)
    requires
        src.len() > 0,
        !has_substring(text, src),
    ensures
        remapped(text, src, project) == text,
{
    lemma_replace_absent(text, src, project);
}

} // verus!
