//! Colored text for the messages of the command-line program.
use vstd::prelude::*;

use colored::Colorize;

use crate::tag::Tag;

verus! {

#[verifier::external_type_specification]
#[verifier::external_body]
pub struct ExColoredString(colored::ColoredString);

/// Whether `s` shows up whole inside `r`.
pub open spec fn shows(r: Seq<char>, s: Seq<char>) -> bool {
    exists|a: Seq<char>, b: Seq<char>| r == a + s + b
}

/// Whether `s` holds no escape character, so that no terminal style sequence
/// lies inside it.
pub open spec fn escape_free(s: Seq<char>) -> bool {
    !s.contains('\x1b')
}

/// Relies on colored's `Colorize::red` and `bold` for `&str`, and the `Display` of
/// `ColoredString`: the text, either bare or between a style sequence and a reset
/// (the inner text is only altered where it holds a reset sequence).
#[verifier::external_body]
fn red_bold(s: &str) -> (r: String)
    ensures
        escape_free(s@) ==> shows(r@, s@),
{
    s.red().bold().to_string()
}

/// Relies on colored's `Colorize::green` and `bold` for `&str`, and the `Display` of
/// `ColoredString`: the text, either bare or between a style sequence and a reset.
#[verifier::external_body]
fn green_bold(s: &str) -> (r: String)
    ensures
        escape_free(s@) ==> shows(r@, s@),
{
    s.green().bold().to_string()
}

/// Relies on colored's `Colorize::white` and `bold` for `&str`, and the `Display` of
/// `ColoredString`: the text, either bare or between a style sequence and a reset.
#[verifier::external_body]
fn white_bold(s: &str) -> (r: String)
    ensures
        escape_free(s@) ==> shows(r@, s@),
{
    s.white().bold().to_string()
}

/// Relies on colored's `Colorize::bold` and `blue` for `&str`, and the `Display` of
/// `ColoredString`: the text, either bare or between a style sequence and a reset.
#[verifier::external_body]
fn bold_blue(s: &str) -> (r: String)
    ensures
        escape_free(s@) ==> shows(r@, s@),
{
    s.bold().blue().to_string()
}

/// Relies on colored's `Colorize::bold` and `yellow` for `&str`: the text, styled
/// bold and yellow.
#[verifier::external_body]
fn bold_yellow(s: &str) -> colored::ColoredString {
    s.bold().yellow()
}

/// `label` and `message` shown side by side, with a colon and a tab between them.
fn labelled(label: String, message: String) -> (r: String)
    ensures
        r@ == label@ + seq![':', '\t'] + message@,
{
    let mut out = label;
    proof { reveal_strlit(":\t"); }
    out.append(":\t");
    out.append(message.as_str());
    out
}

/// Moves the parts of a shown label and message into the order they appear in.
proof fn lemma_label_then_message(l: Seq<char>, label: Seq<char>, m: Seq<char>, message: Seq<char>)
    requires
        shows(l, label),
        shows(m, message),
    ensures
        exists|a: Seq<char>, b: Seq<char>, c: Seq<char>, d: Seq<char>|
            l + seq![':', '\t'] + m == a + label + b + seq![':', '\t'] + c + message + d,
{
    let (a, b) = choose|a: Seq<char>, b: Seq<char>| l == a + label + b;
    let (c, d) = choose|c: Seq<char>, d: Seq<char>| m == c + message + d;
    assert(l + seq![':', '\t'] + m =~= a + label + b + seq![':', '\t'] + c + message + d);
}

/// An error message, after a bold red `ERROR` label and a colon and tab. Where
/// the message holds no escape character, the label and then the message show
/// up whole, in that order.
pub fn fmt_err(err: &str) -> (r: String)
    ensures
        exists|a: Seq<char>, b: Seq<char>| r@ == a + seq![':', '\t'] + b,
        escape_free(err@) ==> exists|a: Seq<char>, b: Seq<char>, c: Seq<char>, d: Seq<char>|
            r@ == a + seq!['E', 'R', 'R', 'O', 'R'] + b + seq![':', '\t'] + c + err@ + d,
{
    proof {
        reveal_strlit("ERROR");
        assert("ERROR"@ =~= seq!['E', 'R', 'R', 'O', 'R']);
        assert(escape_free("ERROR"@));
    }
    let label = red_bold("ERROR");
    let message = white_bold(err);
    let r = labelled(label, message);
    proof {
        if escape_free(err@) {
            lemma_label_then_message(label@, "ERROR"@, message@, err@);
        }
    }
    r
}

/// A success message, after a bold green `OK` label and a colon and tab. Where
/// the message holds no escape character, the label and then the message show
/// up whole, in that order.
pub fn fmt_ok(msg: &str) -> (r: String)
    ensures
        exists|a: Seq<char>, b: Seq<char>| r@ == a + seq![':', '\t'] + b,
        escape_free(msg@) ==> exists|a: Seq<char>, b: Seq<char>, c: Seq<char>, d: Seq<char>|
            r@ == a + seq!['O', 'K'] + b + seq![':', '\t'] + c + msg@ + d,
{
    proof {
        reveal_strlit("OK");
        assert("OK"@ =~= seq!['O', 'K']);
        assert(escape_free("OK"@));
    }
    let label = green_bold("OK");
    let message = white_bold(msg);
    let r = labelled(label, message);
    proof {
        if escape_free(msg@) {
            lemma_label_then_message(label@, "OK"@, message@, msg@);
        }
    }
    r
}

/// A path, bold and blue, between backquotes; a path with no escape character
/// shows up whole between them.
pub fn fmt_path(path: &str) -> (r: String)
    ensures
        exists|a: Seq<char>| r@ == seq!['`'] + a + seq!['`'],
        escape_free(path@) ==> exists|a: Seq<char>, b: Seq<char>| r@ == seq!['`'] + a + path@ + b + seq!['`'],
{
    proof { reveal_strlit("`"); }
    let mut out = String::from_str("`");
    let inner = bold_blue(path);
    out.append(inner.as_str());
    out.append("`");
    assert(out@ == seq!['`'] + inner@ + seq!['`']);
    proof {
        if escape_free(path@) {
            let (a, b) = choose|a: Seq<char>, b: Seq<char>| inner@ == a + path@ + b;
            assert(out@ =~= seq!['`'] + a + path@ + b + seq!['`']);
        }
    }
    out
}

/// The name of a tag, bold and yellow.
pub fn fmt_tag(tag: &Tag) -> colored::ColoredString {
    bold_yellow(tag.name())
}

} // verus!
