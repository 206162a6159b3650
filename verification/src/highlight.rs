//! Syntax highlighting of a file's text: which syntax it is read with, and
//! the classed HTML that syntect makes of it with its bundled syntaxes.

use vstd::prelude::*;
use crate::files::{SyntaxSource, first_line, first_line_of, line_count, lines_in, syntax_source};
use crate::text::{concat2, opt_view};
use syntect::html::{ClassStyle, ClassedHTMLGenerator};
use syntect::parsing::SyntaxSet;
use syntect::util::LinesWithEndings;

verus! {

/// The name of the syntax that syntect's bundled syntax set
/// (`SyntaxSet::load_defaults_newlines`) finds for a file extension
/// (`find_syntax_by_extension`).
pub uninterp spec fn syntax_by_extension(extension: Seq<char>) -> Option<Seq<char>>;

/// The name of the syntax that the bundled syntax set finds for a file's
/// first line (`find_syntax_by_first_line`).
pub uninterp spec fn syntax_by_first_line(line: Seq<char>) -> Option<Seq<char>>;

/// The classed HTML (`ClassedHTMLGenerator`, spaced classes) of `content`
/// read with the bundled syntax named `syntax`, line by line with the line
/// endings kept; or the text of the error that stopped it.
pub uninterp spec fn classed_html(syntax: Seq<char>, content: Seq<char>) -> Result<
    Seq<char>,
    Seq<char>,
>;

/// The same with the bundled plain text syntax.
pub uninterp spec fn plain_text_html(content: Seq<char>) -> Result<Seq<char>, Seq<char>>;

/// A name that one of the lookups found, so a syntax of the bundled set
/// carries it.
pub open spec fn is_found_syntax(name: Seq<char>) -> bool {
    (exists|e: Seq<char>| #[trigger] syntax_by_extension(e) == Some(name)) || (exists|
        l: Seq<char>,
    | #[trigger] syntax_by_first_line(l) == Some(name))
}

/// `find_syntax_by_extension` on the bundled syntax set, giving the found
/// syntax's name.
#[verifier::external_body]
fn find_by_extension(extension: &str) -> (r: Option<String>)
    ensures
        opt_view(r) == syntax_by_extension(extension@),
{
    SyntaxSet::load_defaults_newlines().find_syntax_by_extension(extension).map(|s| s.name.clone())
}

/// `find_syntax_by_first_line` on the bundled syntax set, giving the found
/// syntax's name.
#[verifier::external_body]
fn find_by_first_line(line: &str) -> (r: Option<String>)
    ensures
        opt_view(r) == syntax_by_first_line(line@),
{
    SyntaxSet::load_defaults_newlines().find_syntax_by_first_line(line).map(|s| s.name.clone())
}

/// Highlights `content` with the bundled syntax named `syntax`
/// (`find_syntax_by_name`, then `ClassedHTMLGenerator` over
/// `LinesWithEndings`). The name is one a lookup found, so the syntax is
/// there; the bundled syntaxes' names are distinct, so it is the syntax the
/// lookup found.
#[verifier::external_body]
fn classed_html_with(syntax: &str, content: &str) -> (r: Result<String, String>)
    requires
        is_found_syntax(syntax@),
    ensures
        match r {
            Ok(h) => classed_html(syntax@, content@) == Ok::<Seq<char>, Seq<char>>(h@),
            Err(e) => classed_html(syntax@, content@) == Err::<Seq<char>, Seq<char>>(e@),
        },
{
    let set = SyntaxSet::load_defaults_newlines();
    let found = set.find_syntax_by_name(syntax).unwrap();
    let mut g = ClassedHTMLGenerator::new_with_class_style(found, &set, ClassStyle::Spaced);
    for line in LinesWithEndings::from(content) {
        if let Err(e) = g.parse_html_for_line_which_includes_newline(line) {
            return Err(format!("{e}"));
        }
    }
    Ok(g.finalize())
}

/// Highlights `content` with the bundled plain text syntax
/// (`find_syntax_plain_text`, which panics only for a set without one; the
/// bundled set has it), as `classed_html_with` does.
#[verifier::external_body]
fn plain_html(content: &str) -> (r: Result<String, String>)
    ensures
        match r {
            Ok(h) => plain_text_html(content@) == Ok::<Seq<char>, Seq<char>>(h@),
            Err(e) => plain_text_html(content@) == Err::<Seq<char>, Seq<char>>(e@),
        },
{
    let set = SyntaxSet::load_defaults_newlines();
    let found = set.find_syntax_plain_text();
    let mut g = ClassedHTMLGenerator::new_with_class_style(found, &set, ClassStyle::Spaced);
    for line in LinesWithEndings::from(content) {
        if let Err(e) = g.parse_html_for_line_which_includes_newline(line) {
            return Err(format!("{e}"));
        }
    }
    Ok(g.finalize())
}

/// The syntax a file is read with: the one its extension finds, else the
/// one its first line finds; `None` stands for plain text.
pub open spec fn chosen_syntax(extension: Seq<char>, content: Seq<char>) -> Option<Seq<char>> {
    match syntax_by_extension(extension) {
        Some(n) => Some(n),
        None => syntax_by_first_line(first_line_of(content)),
    }
}

/// The highlighted file: the HTML of its text read with the chosen syntax.
pub open spec fn highlighted(extension: Seq<char>, content: Seq<char>) -> Result<
    Seq<char>,
    Seq<char>,
> {
    match chosen_syntax(extension, content) {
        Some(n) => classed_html(n, content),
        None => plain_text_html(content),
    }
}

/// What a failed highlighting is answered with.
pub open spec fn highlight_failure(error: Seq<char>) -> Seq<char> {
    "Failed to parse file for syntax highlighting: "@ + error
}

/// The HTML of a file's text, with the syntax chosen by the file's
/// extension, else by its first line, else plain text; and its number of
/// lines. A highlighting error is answered with its text.
pub fn render_file(content: &str, extension: &str) -> (r: Result<(String, usize), String>)
    ensures
        match r {
            Ok(page) => page.1 == lines_in(content@) && highlighted(extension@, content@)
                == Ok::<Seq<char>, Seq<char>>(page.0@),
            Err(m) => exists|e: Seq<char>|
                highlighted(extension@, content@) == Err::<Seq<char>, Seq<char>>(e) && m@
                    == highlight_failure(e),
        },
{
    let lines = line_count(content);
    let by_extension = find_by_extension(extension);
    let by_first_line = match by_extension {
        Some(_) => None,
        None => find_by_first_line(first_line(content).as_str()),
    };
    let html = match syntax_source(by_extension.is_some(), by_first_line.is_some()) {
        SyntaxSource::Extension => {
            let name = by_extension.unwrap();
            assert(syntax_by_extension(extension@) == Some(name@));
            classed_html_with(name.as_str(), content)
        },
        SyntaxSource::FirstLine => {
            let name = by_first_line.unwrap();
            assert(syntax_by_first_line(first_line_of(content@)) == Some(name@));
            classed_html_with(name.as_str(), content)
        },
        SyntaxSource::PlainText => plain_html(content),
    };
    match html {
        Ok(h) => Ok((h, lines)),
        Err(e) => {
            let m = concat2("Failed to parse file for syntax highlighting: ", e.as_str());
            assert(m@ == highlight_failure(e@));
            Err(m)
        },
    }
}

} // verus!
