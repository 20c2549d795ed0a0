use vstd::prelude::*;
use crate::byte::{description_text, error_text, ByteStringProblem, InvalidByteStringError};
use crate::pattern::{pattern_text, spec_merge, spec_parse, Pattern};
use crate::text::decimal;
use std::path::PathBuf;

verus! {

/// `std::path::PathBuf`, a path that this library only carries.
#[verifier::external_type_specification]
#[verifier::external_body]
pub struct ExPathBuf(std::path::PathBuf);

/// The arguments of the `sig` command.
#[derive(Clone, Debug)]
pub struct Args {
    pub sub: Sub,
}

/// The subcommands of `sig`.
#[derive(Clone, Debug)]
pub enum Sub {
    /// Count the number of bytes in a pattern.
    Count { pattern: String },
    /// Format a pattern.
    Format { pattern: String },
    /// Merge patterns, those given and those in a file, one per line.
    Merge { patterns: Vec<String>, file: Option<PathBuf> },
}

/// The texts of a sequence of strings.
pub open spec fn texts(items: Seq<String>) -> Seq<Seq<char>> {
    items.map_values(|s: String| s@)
}

/// The patterns that the readable items stand for, in order.
pub open spec fn valid_patterns(items: Seq<Seq<char>>) -> Seq<Seq<crate::byte::PatternByte>>
    decreases items.len(),
{
    if items.len() == 0 {
        seq![]
    } else {
        let rest = valid_patterns(items.drop_last());
        match spec_parse(items.last()) {
            Ok(p) => rest.push(p),
            Err(_) => rest,
        }
    }
}

/// The message for an item that is skipped because it cannot be read.
pub open spec fn skip_message(item: Seq<char>, e: (ByteStringProblem, Seq<u8>)) -> Seq<char> {
    "Skipped invalid pattern '"@ + item + "': "@ + error_text(e)
}

/// The messages for the items that cannot be read, in order.
pub open spec fn skip_messages(items: Seq<Seq<char>>) -> Seq<Seq<char>>
    decreases items.len(),
{
    if items.len() == 0 {
        seq![]
    } else {
        let rest = skip_messages(items.drop_last());
        match spec_parse(items.last()) {
            Ok(_) => rest,
            Err(e) => rest.push(skip_message(items.last(), e)),
        }
    }
}

/// The first pattern merged with each of the others in turn.
pub open spec fn fold_merge(ps: Seq<Seq<crate::byte::PatternByte>>) -> Seq<
    crate::byte::PatternByte,
>
    decreases ps.len(),
{
    if ps.len() == 0 {
        seq![]
    } else if ps.len() == 1 {
        ps[0]
    } else {
        spec_merge(fold_merge(ps.drop_last()), ps.last())
    }
}

/// The merge of the readable items: empty for no items; defined when there
/// is none or at least one readable item.
pub open spec fn merged_items(items: Seq<Seq<char>>) -> Seq<crate::byte::PatternByte> {
    if items.len() == 0 {
        seq![]
    } else {
        fold_merge(valid_patterns(items))
    }
}

/// Whether merging the items is defined: there are none, or one of them is
/// readable.
pub open spec fn merge_defined(items: Seq<Seq<char>>) -> bool {
    items.len() == 0 || valid_patterns(items).len() > 0
}

/// The views of a vector of patterns.
pub open spec fn pattern_views(v: Seq<Pattern>) -> Seq<Seq<crate::byte::PatternByte>> {
    v.map_values(|p: Pattern| p@)
}

/// Reads each item as a pattern: the patterns of the readable items in order,
/// and for each other item the message that reports it.
pub fn parse_patterns(items: &[String]) -> (r: (Vec<Pattern>, Vec<String>))
    ensures
        pattern_views(r.0@) == valid_patterns(texts(items@)),
        texts(r.1@) == skip_messages(texts(items@)),
{
    let mut valid: Vec<Pattern> = Vec::new();
    let mut skipped: Vec<String> = Vec::new();
    let mut i: usize = 0;
    while i < items.len()
        invariant
            i <= items.len(),
            pattern_views(valid@) == valid_patterns(texts(items@.subrange(0, i as int))),
            texts(skipped@) == skip_messages(texts(items@.subrange(0, i as int))),
        decreases items.len() - i,
    {
        let ghost before = texts(items@.subrange(0, i as int));
        let ghost after = texts(items@.subrange(0, i + 1));
        assert(after.drop_last() =~= before);
        assert(after.last() == items@[i as int]@);
        match Pattern::parse(items[i].as_str()) {
            Ok(p) => {
                let ghost v0 = valid@;
                let ghost pv = p@;
                valid.push(p);
                assert(pattern_views(valid@) =~= pattern_views(v0).push(pv));
            },
            Err(e) => {
                let mut msg = String::new();
                msg.append("Skipped invalid pattern '");
                msg.append(items[i].as_str());
                msg.append("': ");
                let et = e.to_string();
                msg.append(et.as_str());
                let ghost s0 = skipped@;
                let ghost mv = msg@;
                skipped.push(msg);
                assert(texts(skipped@) =~= texts(s0).push(mv));
            },
        }
        i = i + 1;
    }
    assert(items@.subrange(0, items@.len() as int) =~= items@);
    (valid, skipped)
}


/// Merges the patterns in order: the first merged with each of the others in
/// turn.
pub fn merge_all(patterns: &[Pattern]) -> (r: Pattern)
    requires
        patterns@.len() > 0,
    ensures
        r@ == fold_merge(pattern_views(patterns@)),
{
    let mut result = Pattern { bytes: patterns[0].bytes.clone() };
    assert(result@ =~= patterns@[0]@);
    let ghost ps = pattern_views(patterns@);
    assert(ps.subrange(0, 1) =~= seq![ps[0]]);
    let mut i: usize = 1;
    while i < patterns.len()
        invariant
            1 <= i <= patterns@.len(),
            ps == pattern_views(patterns@),
            result@ == fold_merge(ps.subrange(0, i as int)),
        decreases patterns.len() - i,
    {
        result = result.merge(&patterns[i]);
        assert(ps.subrange(0, i + 1).drop_last() =~= ps.subrange(0, i as int));
        i = i + 1;
    }
    assert(ps.subrange(0, patterns@.len() as int) =~= ps);
    result
}

/// Merges the patterns that the items stand for, skipping those that cannot
/// be read, and gives the message that reports each skipped item; no items
/// give the empty pattern.
pub fn merge_patterns(items: &[String]) -> (r: (Pattern, Vec<String>))
    requires
        merge_defined(texts(items@)),
    ensures
        r.0@ == merged_items(texts(items@)),
        texts(r.1@) == skip_messages(texts(items@)),
{
    let (valid, skipped) = parse_patterns(items);
    if items.len() == 0 {
        return (Pattern::default(), skipped);
    }
    (merge_all(valid.as_slice()), skipped)
}

/// What a command prints: one line on standard output and lines on standard
/// error.
pub struct Report {
    pub stdout: String,
    pub stderr: Vec<String>,
}

/// The items that `merge` reads: the patterns given, then the lines of the
/// file where one is named.
pub open spec fn merge_items(sub: Sub, file_lines: Seq<String>) -> Seq<Seq<char>> {
    match sub {
        Sub::Merge { patterns, file } => texts(patterns@) + if file is Some {
            texts(file_lines)
        } else {
            Seq::<Seq<char>>::empty()
        },
        _ => seq![],
    }
}

/// Whether the command is defined: `merge` needs no items or a readable one.
pub open spec fn command_defined(sub: Sub, file_lines: Seq<String>) -> bool {
    match sub {
        Sub::Merge { .. } => merge_defined(merge_items(sub, file_lines)),
        _ => true,
    }
}

/// Copies the strings of `from` to the end of `into`.
fn extend_strings(into: &mut Vec<String>, from: &[String])
    ensures
        texts(final(into)@) == texts(old(into)@) + texts(from@),
{
    let mut i: usize = 0;
    while i < from.len()
        invariant
            i <= from.len(),
            texts(into@) == texts(old(into)@) + texts(from@.subrange(0, i as int)),
        decreases from.len() - i,
    {
        let ghost v0 = into@;
        let c = from[i].clone();
        into.push(c);
        assert(texts(into@) =~= texts(v0).push(from@[i as int]@));
        assert(texts(from@.subrange(0, i + 1)) =~= texts(from@.subrange(0, i as int)).push(
            from@[i as int]@,
        ));
        i = i + 1;
    }
    assert(from@.subrange(0, from@.len() as int) =~= from@);
}

/// The items that `merge` reads, as strings.
fn gather_merge_items(patterns: &Vec<String>, file: &Option<PathBuf>, file_lines: &[String]) -> (r: Vec<String>)
    ensures
        texts(r@) == texts(patterns@) + if file is Some {
            texts(file_lines@)
        } else {
            Seq::<Seq<char>>::empty()
        },
{
    let mut items: Vec<String> = Vec::new();
    extend_strings(&mut items, patterns.as_slice());
    assert(texts(Seq::<String>::empty()) + texts(patterns@) =~= texts(patterns@));
    if file.is_some() {
        extend_strings(&mut items, file_lines);
    } else {
        assert(texts(items@) + Seq::<Seq<char>>::empty() =~= texts(items@));
    }
    items
}

/// Whether `handle_args` is defined on these arguments and file lines.
pub fn can_handle(args: &Args, file_lines: &[String]) -> (r: bool)
    ensures
        r == command_defined(args.sub, file_lines@),
{
    match &args.sub {
        Sub::Merge { patterns, file } => {
            let items = gather_merge_items(patterns, file, file_lines);
            if items.len() == 0 {
                return true;
            }
            let (valid, _skipped) = parse_patterns(items.as_slice());
            valid.len() > 0
        },
        _ => true,
    }
}

/// The messages for the items of `merge` that cannot be read, in order (none
/// for the other commands).
pub fn skip_report(args: &Args, file_lines: &[String]) -> (r: Vec<String>)
    ensures
        texts(r@) == skip_messages(merge_items(args.sub, file_lines@)),
{
    match &args.sub {
        Sub::Merge { patterns, file } => {
            let items = gather_merge_items(patterns, file, file_lines);
            let (_valid, skipped) = parse_patterns(items.as_slice());
            skipped
        },
        _ => {
            let r: Vec<String> = Vec::new();
            assert(texts(r@) =~= Seq::<Seq<char>>::empty());
            r
        },
    }
}

/// Carries out a command: `count` prints the number of pattern bytes,
/// `format` prints the pattern's text, `merge` prints the merge of the
/// readable items (those given, then the lines of the file where one is
/// named) and reports each item it skips; a pattern that `count` or `format`
/// cannot read is an error.
pub fn handle_args(args: &Args, file_lines: &[String]) -> (r: Result<Report, InvalidByteStringError>)
    requires
        command_defined(args.sub, file_lines@),
    ensures
        match args.sub {
            Sub::Count { pattern } => match spec_parse(pattern@) {
                Ok(p) => r matches Ok(rep) && rep.stdout@ == decimal(p.len()) && rep.stderr@.len()
                    == 0,
                Err(e) => r matches Err(err) && err@ == description_text(e),
            },
            Sub::Format { pattern } => match spec_parse(pattern@) {
                Ok(p) => r matches Ok(rep) && rep.stdout@ == pattern_text(p) && rep.stderr@.len()
                    == 0,
                Err(e) => r matches Err(err) && err@ == description_text(e),
            },
            Sub::Merge { .. } => r matches Ok(rep) && rep.stdout@ == pattern_text(
                merged_items(merge_items(args.sub, file_lines@)),
            ) && texts(rep.stderr@) == skip_messages(merge_items(args.sub, file_lines@)),
        },
{
    match &args.sub {
        Sub::Count { pattern } => {
            let sig = Pattern::parse(pattern.as_str())?;
            let mut out = String::new();
            crate::text::push_decimal(&mut out, sig.len());
            assert(out@ =~= decimal(sig@.len()));
            Ok(Report { stdout: out, stderr: Vec::new() })
        },
        Sub::Format { pattern } => {
            let sig = Pattern::parse(pattern.as_str())?;
            Ok(Report { stdout: sig.to_string(), stderr: Vec::new() })
        },
        Sub::Merge { patterns, file } => {
            let items = gather_merge_items(patterns, file, file_lines);
            let (merged, skipped) = merge_patterns(items.as_slice());
            Ok(Report { stdout: merged.to_string(), stderr: skipped })
        },
    }
}

} // verus!

verus! {

/// Merging many patterns gives one as long as the longest of them, which
/// matches all the data that a longest one matches.
pub proof fn lemma_fold_merge_matches(
    ps: Seq<Seq<crate::byte::PatternByte>>,
    i: int,
    data: Seq<u8>,
)
    requires
        0 <= i < ps.len(),
        forall|j: int| 0 <= j < ps.len() ==> (#[trigger] ps[j]).len() <= ps[i].len(),
        crate::pattern::matches(ps[i], data),
    ensures
        fold_merge(ps).len() == ps[i].len(),
        crate::pattern::matches(fold_merge(ps), data),
    decreases ps.len(),
{
    if ps.len() > 1 {
        let front = ps.drop_last();
        let last = ps.len() - 1;
        if i < last {
            assert forall|j: int| 0 <= j < front.len() implies (#[trigger] front[j]).len()
                <= front[i].len() by {
                assert(front[j] == ps[j]);
            }
            lemma_fold_merge_matches(front, i, data);
            assert(ps[last].len() <= ps[i].len());
            crate::pattern::lemma_merge_matches(fold_merge(front), ps.last(), data);
        } else {
            lemma_fold_len_bound(front, ps[i].len());
            crate::pattern::lemma_merge_matches(fold_merge(front), ps.last(), data);
        }
    }
}

/// Merging patterns no longer than `n` gives a pattern no longer than `n`.
proof fn lemma_fold_len_bound(ps: Seq<Seq<crate::byte::PatternByte>>, n: nat)
    requires
        forall|j: int| 0 <= j < ps.len() ==> (#[trigger] ps[j]).len() <= n,
    ensures
        fold_merge(ps).len() <= n,
    decreases ps.len(),
{
    if ps.len() > 1 {
        let front = ps.drop_last();
        assert forall|j: int| 0 <= j < front.len() implies (#[trigger] front[j]).len() <= n by {
            assert(front[j] == ps[j]);
        }
        lemma_fold_len_bound(front, n);
        assert(ps[ps.len() - 1].len() <= n);
    } else if ps.len() == 1 {
        assert(ps[0].len() <= n);
    }
}

} // verus!
