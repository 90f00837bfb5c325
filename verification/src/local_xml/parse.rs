//! Parsing of local model output.
use vstd::prelude::*;
use crate::text;
use crate::text::{chars_of, string_of, trim_chars};
use crate::local_output::{speak_message_or_text_chars, strip_suffix_all_chars};

verus! {

/// The model output with trailing end markers ( `<end_of_turn>`,
/// `<eos>`, newlines) and surrounding whitespace removed.
pub open spec fn strip_eot_spec(t: Seq<char>) -> Seq<char> {
    text::trim(
        crate::local_output::strip_suffix_all(
            crate::local_output::strip_suffix_all(
                crate::local_output::strip_suffix_all(t, "<end_of_turn>"@),
                "<eos>"@,
            ),
            seq!['\n'],
        ),
    )
}

pub fn strip_eot_chars(t: &Vec<char>) -> (r: Vec<char>)
    ensures
        r@ == strip_eot_spec(t@),
{
    let t = strip_suffix_all_chars(&t, &chars_of("<end_of_turn>"));
    let t = strip_suffix_all_chars(&t, &chars_of("<eos>"));
    let nl = vec!['\n'];
    assert(nl@ =~= seq!['\n']);
    let t = strip_suffix_all_chars(&t, &nl);
    trim_chars(&t)
}

/// Removes trailing end markers and surrounding whitespace from model output.
pub fn strip_eot_markers(text: &str) -> (r: String)
    ensures
        r@ == strip_eot_spec(text@),
{
    string_of(&strip_eot_chars(&chars_of(text)))
}

/// What `parse_python_speak_output` returns: the message of the last
/// `speak(message=...)` call of the cleaned output, or the cleaned output.
pub open spec fn python_speak_spec(t: Seq<char>) -> Seq<char> {
    crate::local_output::speak_message_or_text(strip_eot_spec(t))
}

/// Extracts the message from Python-style `speak(message="...")` output.
pub fn parse_python_speak_output(text: &str) -> (r: String)
    ensures
        r@ == python_speak_spec(text@),
{
    let t = strip_eot_chars(&chars_of(text));
    string_of(&speak_message_or_text_chars(&t))
}

} // verus!
