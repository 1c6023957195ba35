//! The output splitter: which files are combined outputs, and into which of
//! three artifacts each of their lines goes.

use vstd::prelude::*;
use vstd::string::*;
use crate::text::{count_char, count_of, views};

verus! {

/// The three kinds of line in a combined output.
#[derive(Debug, Clone, Copy, PartialEq, Eq, Structural)]
pub enum Category {
    /// Two fields: an identifier and its count.
    Counts,
    /// Three fields: summary statistics.
    Stats,
    /// Any other shape: the prediction for one sequence.
    Preds,
}

/// The lines of one combined output, sorted into its three artifacts.
#[derive(Debug)]
pub struct SplitOutput {
    pub counts: Vec<String>,
    pub stats: Vec<String>,
    pub preds: Vec<String>,
}

/// The pattern that the name of a combined output matches: it ends with
/// `.kegg`, or with `.pfam` and at least one digit.
pub const OUTPUT_PATTERN: &'static str = "\\.(kegg|pfam\\d+)$";

/// Whether `text` matches the regular expression `pattern`, as the `regex`
/// crate decides it; `None` where `pattern` is no regular expression.
pub uninterp spec fn regex_match(pattern: Seq<char>, text: Seq<char>) -> Option<bool>;

/// The number of comma-separated fields in a line: one more than its commas.
pub open spec fn field_count(line: Seq<char>) -> nat {
    count_of(line, ',') + 1
}

/// The category of a line, by its number of fields.
pub open spec fn category_of(line: Seq<char>) -> Category {
    if field_count(line) == 2 {
        Category::Counts
    } else if field_count(line) == 3 {
        Category::Stats
    } else {
        Category::Preds
    }
}

/// The lines of category `cat` among `lines`, unchanged and in their order.
pub open spec fn routed(lines: Seq<Seq<char>>, cat: Category) -> Seq<Seq<char>>
    decreases lines.len(),
{
    if lines.len() == 0 {
        Seq::empty()
    } else if category_of(lines.last()) == cat {
        routed(lines.drop_last(), cat).push(lines.last())
    } else {
        routed(lines.drop_last(), cat)
    }
}

/// The suffix that the artifact of a category adds to the source's name.
pub open spec fn suffix_of(cat: Category) -> Seq<char> {
    match cat {
        Category::Counts => ".counts"@,
        Category::Stats => ".stats"@,
        Category::Preds => ".preds"@,
    }
}

/// Whether a file of this name is a combined output.
pub open spec fn is_output_name(name: Seq<char>) -> bool {
    regex_match(OUTPUT_PATTERN@, name) == Some(true)
}

/// The names among `names` that are combined outputs, in their order.
pub open spec fn outputs_among(names: Seq<Seq<char>>) -> Seq<Seq<char>>
    decreases names.len(),
{
    if names.len() == 0 {
        Seq::empty()
    } else if is_output_name(names.last()) {
        outputs_among(names.drop_last()).push(names.last())
    } else {
        outputs_among(names.drop_last())
    }
}

/// Calls `regex::Regex::new` on `pattern` and `Regex::is_match` on `text`.
/// Trusted: the answer is the one named `regex_match`, which depends on the
/// two texts alone; `None` stands for a pattern that does not compile.
#[verifier::external_body]
fn pattern_matches(pattern: &str, text: &str) -> (r: Option<bool>)
    ensures
        r == regex_match(pattern@, text@),
{
    match regex::Regex::new(pattern) {
        Ok(re) => Some(re.is_match(text)),
        Err(_) => None,
    }
}

/// Reads the answer of a match: only a definite match counts.
pub fn accepts(matched: Option<bool>) -> (r: bool)
    ensures
        r == (matched == Some(true)),
{
    match matched {
        Some(b) => b,
        None => false,
    }
}

/// Tells whether a file of this name is a combined output.
pub fn is_raw_output(name: &str) -> (r: bool)
    ensures
        r == is_output_name(name@),
{
    accepts(pattern_matches(OUTPUT_PATTERN, name))
}

/// Picks the combined outputs among the files found, keeping their order.
pub fn select_outputs(names: &Vec<String>) -> (r: Vec<String>)
    ensures
        views(r@) == outputs_among(views(names@)),
{
    let ghost ns = views(names@);
    let mut r: Vec<String> = Vec::new();
    let mut i: usize = 0;
    proof {
        assert(views(r@) =~= outputs_among(ns.take(0)));
    }
    while i < names.len()
        invariant
            i <= names.len(),
            ns == views(names@),
            views(r@) == outputs_among(ns.take(i as int)),
        decreases names.len() - i,
    {
        let ghost before = views(r@);
        proof {
            assert(ns.take(i + 1).drop_last() =~= ns.take(i as int));
            assert(ns.take(i + 1).last() == names@[i as int]@);
        }
        if is_raw_output(names[i].as_str()) {
            r.push(names[i].clone());
            proof {
                assert(views(r@) =~= before.push(names@[i as int]@));
            }
        }
        i += 1;
    }
    proof {
        assert(ns.take(names.len() as int) =~= ns);
    }
    r
}

/// Decides the artifact of one line.
pub fn classify_line(line: &str) -> (cat: Category)
    ensures
        cat == category_of(line@),
{
    let commas: usize = count_char(line, ',');
    if commas == 1 {
        Category::Counts
    } else if commas == 2 {
        Category::Stats
    } else {
        Category::Preds
    }
}

/// The name of the artifact of category `cat` for the output `source`.
pub fn artifact_name(source: &str, cat: Category) -> (name: String)
    ensures
        name@ == source@ + suffix_of(cat),
{
    let mut name = String::from_str(source);
    match cat {
        Category::Counts => name.append(".counts"),
        Category::Stats => name.append(".stats"),
        Category::Preds => name.append(".preds"),
    }
    name
}

/// Sorts the lines of one combined output into its three artifacts. Each
/// artifact holds the lines of its category, unchanged and in their order.
pub fn split_lines(lines: &Vec<String>) -> (out: SplitOutput)
    ensures
        views(out.counts@) == routed(views(lines@), Category::Counts),
        views(out.stats@) == routed(views(lines@), Category::Stats),
        views(out.preds@) == routed(views(lines@), Category::Preds),
{
    let ghost ls = views(lines@);
    let mut counts: Vec<String> = Vec::new();
    let mut stats: Vec<String> = Vec::new();
    let mut preds: Vec<String> = Vec::new();
    let mut i: usize = 0;
    proof {
        assert(views(counts@) =~= routed(ls.take(0), Category::Counts));
        assert(views(stats@) =~= routed(ls.take(0), Category::Stats));
        assert(views(preds@) =~= routed(ls.take(0), Category::Preds));
    }
    while i < lines.len()
        invariant
            i <= lines.len(),
            ls == views(lines@),
            views(counts@) == routed(ls.take(i as int), Category::Counts),
            views(stats@) == routed(ls.take(i as int), Category::Stats),
            views(preds@) == routed(ls.take(i as int), Category::Preds),
        decreases lines.len() - i,
    {
        let ghost c0 = views(counts@);
        let ghost s0 = views(stats@);
        let ghost p0 = views(preds@);
        proof {
            assert(ls.take(i + 1).drop_last() =~= ls.take(i as int));
            assert(ls.take(i + 1).last() == lines@[i as int]@);
        }
        let line = lines[i].clone();
        match classify_line(lines[i].as_str()) {
            Category::Counts => {
                counts.push(line);
                proof {
                    assert(views(counts@) =~= c0.push(lines@[i as int]@));
                }
            },
            Category::Stats => {
                stats.push(line);
                proof {
                    assert(views(stats@) =~= s0.push(lines@[i as int]@));
                }
            },
            Category::Preds => {
                preds.push(line);
                proof {
                    assert(views(preds@) =~= p0.push(lines@[i as int]@));
                }
            },
        }
        i += 1;
    }
    proof {
        assert(ls.take(lines.len() as int) =~= ls);
    }
    SplitOutput { counts, stats, preds }
}

/// Splitting loses and adds nothing: the three artifacts together hold as
/// many lines as the source, and each line of the source as often as the
/// source holds it.
pub proof fn lemma_split_partitions(lines: Seq<Seq<char>>)
    ensures
        routed(lines, Category::Counts).len() + routed(lines, Category::Stats).len() + routed(
            lines,
            Category::Preds,
        ).len() == lines.len(),
        lines.to_multiset() =~= routed(lines, Category::Counts).to_multiset().add(
            routed(lines, Category::Stats).to_multiset(),
        ).add(routed(lines, Category::Preds).to_multiset()),
    decreases lines.len(),
{
    broadcast use vstd::seq_lib::group_to_multiset_ensures;

    if lines.len() > 0 {
        lemma_split_partitions(lines.drop_last());
        assert(lines =~= lines.drop_last().push(lines.last()));
    } else {
        assert(lines.to_multiset().len() == 0);
        assert(routed(lines, Category::Counts).to_multiset().len() == 0);
    }
}

/// A line is in exactly one artifact: the one of its category.
pub proof fn lemma_routed_only_own(lines: Seq<Seq<char>>, cat: Category, line: Seq<char>)
    requires
        routed(lines, cat).contains(line),
    ensures
        category_of(line) == cat,
        lines.contains(line),
    decreases lines.len(),
{
    if lines.len() > 0 {
        let rest = lines.drop_last();
        let i = choose|i: int| 0 <= i < routed(lines, cat).len() && routed(lines, cat)[i] == line;
        if category_of(lines.last()) == cat && i == routed(rest, cat).len() {
            assert(lines[lines.len() - 1] == line);
        } else {
            assert(routed(rest, cat)[i] == line);
            lemma_routed_only_own(rest, cat, line);
            let j = choose|j: int| 0 <= j < rest.len() && rest[j] == line;
            assert(lines[j] == line);
        }
    }
}

} // verus!
