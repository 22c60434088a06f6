//! Lists as the command line reads and writes them: the repositories to
//! analyse, one to the line, and the names of the metrics of a report.

use vstd::prelude::*;
use vstd::string::*;
use crate::pathmap::PathMap;
use crate::value::{Found, found};

verus! {

/// What `str::lines` gives for `text`: its lines, without their ends.
pub uninterp spec fn lines_of(text: Seq<char>) -> Seq<Seq<char>>;

/// What `str::trim` gives for `text`: the text without the white space at
/// its start and at its end.
pub uninterp spec fn trimmed(text: Seq<char>) -> Seq<char>;

/// What `crowbook_text_processing::escape::tex` gives for `text`: the text
/// with the characters escaped that are special to LaTeX.
pub uninterp spec fn tex_escaped(text: Seq<char>) -> Seq<char>;

/// What a run of strings stands for.
pub open spec fn texts(strings: Seq<String>) -> Seq<Seq<char>> {
    Seq::new(strings.len(), |i: int| strings[i]@)
}

/// The lines of `text`.
///
/// Calls `str::lines`. Nothing is claimed of the lines but that they
/// depend on the text alone.
#[verifier::external_body]
fn lines(text: &str) -> (lines: Vec<String>)
    ensures
        texts(lines@) == lines_of(text@),
{
    text.lines().map(|line| line.to_string()).collect()
}

/// `text` without the white space around it.
///
/// Calls `str::trim`. Nothing is claimed of the result but that it depends
/// on the text alone.
#[verifier::external_body]
fn trim(text: &str) -> (out: String)
    ensures
        out@ == trimmed(text@),
{
    text.trim().to_string()
}

/// `text` with the characters escaped that are special to LaTeX.
///
/// Calls `crowbook_text_processing::escape::tex`. Nothing is claimed of
/// the result but that it depends on the text alone.
#[verifier::external_body]
fn tex(text: &str) -> (out: String)
    ensures
        out@ == tex_escaped(text@),
{
    crowbook_text_processing::escape::tex(text).into_owned()
}

/// The lines `lines`, each without the white space around it, the empty
/// ones left out.
pub open spec fn names_in(lines: Seq<Seq<char>>) -> Seq<Seq<char>>
    decreases lines.len(),
{
    if lines.len() == 0 {
        Seq::empty()
    } else if trimmed(lines.last()).len() == 0 {
        names_in(lines.drop_last())
    } else {
        names_in(lines.drop_last()).push(trimmed(lines.last()))
    }
}

/// The names on the lines `lines`: each line without the white space
/// around it, the empty ones left out.
pub fn names_on(lines: &Vec<String>) -> (names: Vec<String>)
    ensures
        texts(names@) == names_in(texts(lines@)),
{
    let mut names: Vec<String> = Vec::new();
    let ghost all = texts(lines@);
    let mut i: usize = 0;
    proof {
        assert(texts(names@) =~= names_in(all.take(0)));
    }
    while i < lines.len()
        invariant
            i <= lines@.len(),
            all == texts(lines@),
            texts(names@) == names_in(all.take(i as int)),
        decreases lines@.len() - i,
    {
        let name = trim(lines[i].as_str());
        proof {
            assert(all.take(i + 1).drop_last() =~= all.take(i as int));
            assert(all.take(i + 1).last() == lines@[i as int]@);
        }
        if !name.as_str().is_empty() {
            proof {
                assert(texts(names@.push(name)) =~= texts(names@).push(name@));
            }
            names.push(name);
        }
        i += 1;
    }
    proof {
        assert(all.take(lines@.len() as int) =~= all);
    }
    names
}

/// The names of the repositories that `list` names, one to the line.
pub fn repo_names(list: &str) -> (names: Vec<String>)
    ensures
        texts(names@) == names_in(lines_of(list@)),
{
    let found = lines(list);
    names_on(&found)
}

/// The line that names the metric whose escaped name is `escaped` in a
/// LaTeX table.
pub fn metric_macro(escaped: &str) -> (line: String)
    ensures
        line@ == "\\metric{"@ + escaped@ + "}{INSERT HERE}"@,
{
    let mut line = String::from_str("\\metric{");
    line.append(escaped);
    line.append("}{INSERT HERE}");
    line
}

/// The line that names the metric `metric`: its name, or, for LaTeX, its
/// escaped name in the macro of the table.
pub fn metric_line(metric: &str, latex: bool) -> (line: String)
    ensures
        line@ == if latex {
            "\\metric{"@ + tex_escaped(metric@) + "}{INSERT HERE}"@
        } else {
            metric@
        },
{
    if latex {
        let escaped = tex(metric);
        metric_macro(escaped.as_str())
    } else {
        String::from_str(metric)
    }
}

/// The paths of `entries`.
pub open spec fn paths_of<L>(entries: Seq<Found<L>>) -> Seq<Seq<char>> {
    Seq::new(entries.len(), |i: int| entries[i].path)
}

/// The names of the metrics of a flattened report, in their order.
pub fn get_metric_list<L>(metrics: &PathMap<L>) -> (names: Vec<String>)
    ensures
        texts(names@) == paths_of(metrics@),
{
    let entries = metrics.entries();
    let mut names: Vec<String> = Vec::new();
    let mut i: usize = 0;
    while i < entries.len()
        invariant
            i <= entries@.len(),
            found(entries@) == metrics@,
            texts(names@) == paths_of(metrics@).take(i as int),
        decreases entries@.len() - i,
    {
        let name = entries[i].path.clone();
        proof {
            assert(metrics@[i as int] == entries@[i as int]@);
            assert(name@ == paths_of(metrics@)[i as int]);
            assert(texts(names@.push(name)) =~= texts(names@).push(name@));
            assert(paths_of(metrics@).take(i + 1) =~= paths_of(metrics@).take(i as int).push(
                name@,
            ));
        }
        names.push(name);
        i += 1;
    }
    proof {
        assert(paths_of(metrics@).take(entries@.len() as int) =~= paths_of(metrics@));
    }
    names
}

} // verus!
