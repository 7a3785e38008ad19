//! The directory listing page: the list of entries as markup, filled into a
//! page template by the `rtfmt` crate.

use crate::text::join;
use vstd::prelude::*;

verus! {

/// The page that a listing is filled into. `~{dir}` stands for the directory
/// and `~{file_list}` for the list of its entries.
pub const HTML_TEMPLATE: &'static str = "
<!DOCTYPE HTML PUBLIC '-//W3C//DTD HTML 4.01//EN' 'http://www.w3.org/TR/html4/strict.dtd'>
<html>
<head>
<meta http-equiv='Content-Type' content='text/html; charset=utf-8'>
<title>Directory listing for ~{dir}</title>
</head>
<body>
<h1>Directory listing for ~{dir}</h1>
<hr>
~{file_list}
<hr>
</body>
</html>
";

#[verifier::external_type_specification]
#[verifier::external_body]
pub struct ExStringTemplate(rtfmt::StringTemplate);

/// The text that a template was made from.
pub uninterp spec fn template_text(template: rtfmt::StringTemplate) -> Seq<char>;

/// The replacements set on a template so far, each under the marker that it
/// is to replace.
pub uninterp spec fn template_vars(template: rtfmt::StringTemplate) -> Map<Seq<char>, Seq<char>>;

/// The text that `rtfmt` produces from a template text and a set of
/// replacements.
pub uninterp spec fn formatted(text: Seq<char>, vars: Map<Seq<char>, Seq<char>>) -> Seq<char>;

/// No replacement at all.
pub open spec fn no_vars() -> Map<Seq<char>, Seq<char>> {
    Map::empty()
}

/// The marker that stands for the variable `key` in a template: `~{key}`.
pub open spec fn marker(key: Seq<char>) -> Seq<char> {
    "~{"@ + key + "}"@
}

/// The item of the list for one entry: a link to the entry, labelled with
/// its name.
pub open spec fn list_item(file: Seq<char>) -> Seq<char> {
    "<li><a href='"@ + file + "'>"@ + file + "</a></li>"@
}

/// The lines of the list: the opening tag, one item for each entry in order,
/// and the closing tag.
pub open spec fn list_lines(files: Seq<Seq<char>>) -> Seq<Seq<char>> {
    seq!["<ul>"@] + files.map_values(|file: Seq<char>| list_item(file)) + seq!["</ul>"@]
}

/// The markup of the list of entries: its lines, joined by line feeds.
pub open spec fn file_list(files: Seq<Seq<char>>) -> Seq<char> {
    join(list_lines(files), '\n')
}

/// The replacements that a listing page is formatted with.
pub open spec fn page_vars(files: Seq<Seq<char>>, directory: Seq<char>) -> Map<
    Seq<char>,
    Seq<char>,
> {
    no_vars().insert(marker("dir"@), directory).insert(
        marker("file_list"@),
        file_list(files),
    )
}

/// The listing page for a directory and the names of its entries.
pub open spec fn listing_page(files: Seq<Seq<char>>, directory: Seq<char>) -> Seq<char> {
    formatted(HTML_TEMPLATE@, page_vars(files, directory))
}

/// The character sequences of a sequence of strings.
pub open spec fn texts(strings: Seq<String>) -> Seq<Seq<char>> {
    strings.map_values(|s: String| s@)
}

/// Calls `rtfmt::StringTemplate::new`, which keeps the text and starts with
/// no replacement.
#[verifier::external_body]
fn new_template(text: &str) -> (template: rtfmt::StringTemplate)
    ensures
        template_text(template) == text@,
        template_vars(template) == no_vars(),
{
    rtfmt::StringTemplate::new(text)
}

/// Calls `rtfmt::StringTemplate::set`, which files the replacement under the
/// marker `~{key}`, in place of an earlier one for the same key, and leaves
/// the template text as it is.
#[verifier::external_body]
fn set_variable(template: &mut rtfmt::StringTemplate, key: &str, replacement: String)
    ensures
        template_text(*final(template)) == template_text(*old(template)),
        template_vars(*final(template)) == template_vars(*old(template)).insert(
            marker(key@),
            replacement@,
        ),
{
    template.set(key, replacement)
}

/// Calls `rtfmt::StringTemplate::format`. Its result depends on the template
/// text and the replacements alone: starting from the text, it takes the
/// markers in their sorted order and replaces every occurrence of each by its
/// replacement. That text is not spelled out here; it goes by the name
/// `formatted`.
#[verifier::external_body]
fn format_template(template: &rtfmt::StringTemplate) -> (text: String)
    ensures
        text@ == formatted(template_text(*template), template_vars(*template)),
{
    template.format()
}

/// Renders the listing page of `directory` for the entry names `files`.
pub fn file_list_to_html(files: Vec<String>, directory: String) -> (html: String)
    ensures
        html@ == listing_page(texts(files@), directory@),
{
    let ghost names = texts(files@);
    let mut list = String::from_str("<ul>");
    let mut i: usize = 0;
    proof {
        assert(list_lines(names.take(0)).drop_last() =~= seq!["<ul>"@]);
        assert(list_lines(names.take(0)) =~= seq!["<ul>"@, "</ul>"@]);
    }
    while i < files.len()
        invariant
            i <= files.len(),
            names == texts(files@),
            list@ == join(list_lines(names.take(i as int)).drop_last(), '\n'),
        decreases files.len() - i,
    {
        let file = files[i].as_str();
        let ghost before = list_lines(names.take(i as int)).drop_last();
        let ghost after = list_lines(names.take(i + 1)).drop_last();
        list.append("\n");
        list.append("<li><a href='");
        list.append(file);
        list.append("'>");
        list.append(file);
        list.append("</a></li>");
        proof {
            reveal_strlit("\n");
            assert(names[i as int] == file@);
            assert(after =~= before.push(list_item(file@)));
            assert(after.drop_last() =~= before);
            assert(before.len() >= 1);
            assert(join(after, '\n') == join(before, '\n').push('\n') + list_item(file@));
            assert(list@ =~= join(before, '\n').push('\n') + list_item(file@));
        }
        i += 1;
    }
    let ghost items = list_lines(names).drop_last();
    proof {
        assert(names.take(files.len() as int) =~= names);
    }
    list.append("\n");
    list.append("</ul>");
    proof {
        reveal_strlit("\n");
        assert(list_lines(names) =~= items.push("</ul>"@));
        assert(list_lines(names).drop_last() =~= items);
        assert(items.len() >= 1);
        assert(list@ =~= join(items, '\n').push('\n') + "</ul>"@);
    }
    let mut template = new_template(HTML_TEMPLATE);
    set_variable(&mut template, "dir", directory);
    set_variable(&mut template, "file_list", list);
    format_template(&template)
}

} // verus!
