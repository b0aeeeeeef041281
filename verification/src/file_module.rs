//! File-to-module mapping validation.
//!
//! Each `.pdx` source file declares exactly one top-level module whose name
//! is the file basename in PascalCase.  Diagnostic codes:
//! - M0305: file basename does not match the top-level module name;
//! - M0306: multiple top-level modules (emitted by the parser, not here);
//! - M0313: file contains no top-level module.

use vstd::prelude::*;
use vstd::utf8::{decode_utf8, encode_utf8, is_char_boundary};

verus! {

/// Diagnostic code for "file basename does not match module name".
pub const M_FILE_NAME_MISMATCH: u16 = 305;

/// Diagnostic code for "multiple top-level modules in file" (emitted by the parser).
pub const M_MULTIPLE_TOP_MODULES: u16 = 306;

/// Diagnostic code for "file contains no top-level module".
pub const M_NO_TOP_MODULE: u16 = 313;

/// Segment delimiters of a file stem.
pub open spec fn is_delimiter(c: char) -> bool {
    c == '_' || c == '-'
}

/// The stem split at every `_` and `-` (as `str::split` does: empty segments
/// included, one more segment than delimiters).
pub open spec fn split_segments(s: Seq<char>) -> Seq<Seq<char>>
    decreases s.len(),
{
    if s.len() == 0 {
        seq![Seq::empty()]
    } else {
        let pre = split_segments(s.drop_last());
        if is_delimiter(s.last()) {
            pre.push(Seq::empty())
        } else {
            pre.update(pre.len() - 1, pre.last().push(s.last()))
        }
    }
}

/// Every character is an ASCII digit.
pub open spec fn all_ascii_digits(s: Seq<char>) -> bool {
    forall|i: int| 0 <= i < s.len() ==> '0' <= #[trigger] s[i] <= '9'
}

/// A segment contributes a word: non-empty and not purely numeric.
pub open spec fn kept_segment(seg: Seq<char>) -> bool {
    seg.len() > 0 && !all_ascii_digits(seg)
}

/// The uppercase mapping of `c`, as `char::to_uppercase` yields it.
pub uninterp spec fn char_uppercase(c: char) -> Seq<char>;

/// The lowercase form of `s`, as `str::to_lowercase` returns it.
pub uninterp spec fn str_lowercase(s: Seq<char>) -> Seq<char>;

/// A kept segment as a word: first character uppercased, the rest lowercased.
pub open spec fn capitalize(seg: Seq<char>) -> Seq<char> {
    char_uppercase(seg[0]) + str_lowercase(seg.drop_first())
}

/// The words of the kept segments, concatenated in order.
pub open spec fn pascal_words(segs: Seq<Seq<char>>) -> Seq<char>
    decreases segs.len(),
{
    if segs.len() == 0 {
        Seq::empty()
    } else {
        pascal_words(segs.drop_last()) + if kept_segment(segs.last()) {
            capitalize(segs.last())
        } else {
            Seq::empty()
        }
    }
}

/// PascalCase module name expected for a file stem.
pub open spec fn module_name_of(stem: Seq<char>) -> Seq<char> {
    if stem.len() == 0 {
        Seq::empty()
    } else {
        pascal_words(split_segments(stem))
    }
}

/// Calls `char::to_uppercase` and collects the chars it yields.
///
/// Trusted: the Unicode mapping is named (`char_uppercase`), not stated.
#[verifier::external_body]
fn char_to_uppercase(c: char) -> (r: String)
    ensures
        r@ == char_uppercase(c),
{
    c.to_uppercase().collect::<String>()
}

/// Calls `str::to_lowercase`.
///
/// Trusted: the Unicode mapping is named (`str_lowercase`), not stated.
#[verifier::external_body]
fn str_to_lowercase(s: &str) -> (r: String)
    ensures
        r@ == str_lowercase(s@),
{
    s.to_lowercase()
}

/// Calls `<str as Index<Range<usize>>>::index`, i.e. `&s[start..end]`.
///
/// Trusted: std documents that the result is the substring of the byte range
/// and that indexing panics unless `start <= end <= s.len()` and both ends lie
/// on char boundaries, which `requires` rules out.
#[verifier::external_body]
pub(crate) fn str_byte_range(s: &str, start: usize, end: usize) -> (r: &str)
    requires
        start <= end <= encode_utf8(s@).len(),
        is_char_boundary(encode_utf8(s@), start as int),
        is_char_boundary(encode_utf8(s@), end as int),
    ensures
        encode_utf8(r@) == encode_utf8(s@).subrange(start as int, end as int),
{
    &s[start..end]
}

proof fn lemma_split_nonempty(s: Seq<char>)
    ensures
        split_segments(s).len() >= 1,
    decreases s.len(),
{
    if s.len() > 0 {
        lemma_split_nonempty(s.drop_last());
    }
}

/// The word a segment `stem[start..end]` contributes.
fn segment_word(stem: &str, start: usize, end: usize) -> (r: String)
    requires
        start <= end <= stem@.len(),
    ensures
        r@ == (if kept_segment(stem@.subrange(start as int, end as int)) {
            capitalize(stem@.subrange(start as int, end as int))
        } else {
            Seq::<char>::empty()
        }),
{
    let ghost seg = stem@.subrange(start as int, end as int);
    if start == end {
        return String::new();
    }
    let mut all_digits = true;
    let mut i = start;
    while i < end
        invariant
            start <= i <= end <= stem@.len(),
            seg == stem@.subrange(start as int, end as int),
            all_digits == forall|j: int| start <= j < i ==> '0' <= #[trigger] stem@[j] <= '9',
        decreases end - i,
    {
        let c = stem.get_char(i);
        if !('0' <= c && c <= '9') {
            all_digits = false;
        }
        i += 1;
    }
    proof {
        if all_digits {
            assert forall|k: int| 0 <= k < seg.len() implies '0' <= #[trigger] seg[k] <= '9' by {
                assert(seg[k] == stem@[start + k]);
            }
        } else {
            let j = choose|j: int| start <= j < end && !('0' <= #[trigger] stem@[j] <= '9');
            assert(seg[j - start] == stem@[j]);
        }
    }
    if all_digits {
        return String::new();
    }
    let first = stem.get_char(start);
    let upper = char_to_uppercase(first);
    let rest = stem.substring_char(start + 1, end);
    let lower = str_to_lowercase(rest);
    assert(rest@ =~= seg.drop_first());
    upper.concat(lower.as_str())
}

/// Convert a file stem to its PascalCase module name: split on `_` and `-`,
/// skip empty and purely numeric segments (`01_hello` → `Hello`), uppercase the
/// first character of each remaining segment, lowercase the rest, concatenate.
pub fn expected_module_name(stem: &str) -> (r: String)
    ensures
        r@ == module_name_of(stem@),
{
    let n = stem.unicode_len();
    if n == 0 {
        return String::new();
    }
    let mut res = String::new();
    let mut start: usize = 0;
    let mut i: usize = 0;
    let ghost mut done: Seq<Seq<char>> = Seq::empty();
    assert(stem@.take(0) =~= Seq::<char>::empty());
    while i < n
        invariant
            n == stem@.len(),
            0 <= start <= i <= n,
            split_segments(stem@.take(i as int)) == done.push(stem@.subrange(start as int, i as int)),
            res@ == pascal_words(done),
        decreases n - i,
    {
        let c = stem.get_char(i);
        let ghost prefix = stem@.take(i + 1);
        proof {
            assert(prefix.drop_last() =~= stem@.take(i as int));
            assert(prefix.last() == c);
            lemma_split_nonempty(stem@.take(i as int));
        }
        if c == '_' || c == '-' {
            let word = segment_word(stem, start, i);
            proof {
                let cur = stem@.subrange(start as int, i as int);
                assert(done.push(cur).drop_last() =~= done);
                assert(pascal_words(done.push(cur)) == pascal_words(done) + word@);
                done = done.push(cur);
                assert(stem@.subrange(i + 1, i + 1) =~= Seq::<char>::empty());
            }
            res = res.concat(word.as_str());
            start = i + 1;
        } else {
            proof {
                let cur = stem@.subrange(start as int, i as int);
                assert(cur.push(c) =~= stem@.subrange(start as int, i + 1));
                assert(done.push(cur).update(done.len() as int, cur.push(c)) =~= done.push(cur.push(c)));
            }
        }
        i += 1;
    }
    let word = segment_word(stem, start, n);
    proof {
        let cur = stem@.subrange(start as int, n as int);
        assert(stem@.take(n as int) =~= stem@);
        assert(done.push(cur).drop_last() =~= done);
    }
    res.concat(word.as_str())
}

/// A diagnostic of the file-to-module check.
#[derive(Debug)]
pub struct ModuleMappingDiagnostic {
    /// Diagnostic number in category M (an error).
    pub code: u16,
    /// Human-readable message.
    pub message: String,
    /// Byte span of the offending module name, if any.
    pub name_span: Option<(u32, u32)>,
}

/// Outcome of the file-to-module check.
#[derive(Debug)]
pub struct ModuleMappingReport {
    /// Validation passed; `false` gates downstream lowering.
    pub ok: bool,
    /// The diagnostic emitted, if any.
    pub diagnostic: Option<ModuleMappingDiagnostic>,
}

/// Text of the module name found at byte span `span` of `content`: the
/// span's text when it ends within the content, empty otherwise.
pub open spec fn name_text(content: Seq<char>, span: (u32, u32)) -> Seq<char> {
    if span.1 <= encode_utf8(content).len() {
        decode_utf8(encode_utf8(content).subrange(span.0 as int, span.1 as int))
    } else {
        Seq::empty()
    }
}

/// The module name span can be read without panicking: when it ends within
/// the content it is a well-ordered range on char boundaries.
pub open spec fn name_span_readable(content: Seq<char>, span: (u32, u32)) -> bool {
    span.1 <= encode_utf8(content).len() ==> {
        &&& span.0 <= span.1
        &&& is_char_boundary(encode_utf8(content), span.0 as int)
        &&& is_char_boundary(encode_utf8(content), span.1 as int)
    }
}

/// Message of M0305.
pub open spec fn mismatch_message(actual: Seq<char>, stem: Seq<char>, expected: Seq<char>) -> Seq<char> {
    "module name '"@ + actual + "' does not match file basename '"@ + stem + "' (expected '"@ + expected + "')"@
}

/// Message of M0313.
pub open spec fn no_module_message() -> Seq<char> {
    "file contains no top-level module; expected exactly one"@
}

/// Check the file-to-module mapping of a parsed file.
///
/// `modules` has one entry per top-level module item of the file, in order:
/// the byte span of its name identifier, or `None` when the item carries no
/// readable name.  No module gives M0313; several give a failure without a
/// diagnostic (the parser reports M0306); a single named module whose text
/// differs from the PascalCase form of `stem` gives M0305 at the name.
pub fn check_file_module_mapping(stem: &str, modules: &[Option<(u32, u32)>], content: &str) -> (r: ModuleMappingReport)
    requires
        encode_utf8(content@).len() <= usize::MAX,
        modules@.len() == 1 && modules@[0] is Some ==> name_span_readable(content@, modules@[0]->0),
    ensures
        modules@.len() == 0 ==> {
            &&& !r.ok
            &&& r.diagnostic is Some
            &&& r.diagnostic->0.code == M_NO_TOP_MODULE
            &&& r.diagnostic->0.message@ == no_module_message()
            &&& r.diagnostic->0.name_span is None
        },
        modules@.len() > 1 ==> !r.ok && r.diagnostic is None,
        modules@.len() == 1 && modules@[0] is None ==> r.ok && r.diagnostic is None,
        modules@.len() == 1 && modules@[0] is Some ==> {
            let span = modules@[0]->0;
            let actual = name_text(content@, span);
            let expected = module_name_of(stem@);
            if actual == expected {
                r.ok && r.diagnostic is None
            } else {
                &&& !r.ok
                &&& r.diagnostic is Some
                &&& r.diagnostic->0.code == M_FILE_NAME_MISMATCH
                &&& r.diagnostic->0.message@ == mismatch_message(actual, stem@, expected)
                &&& r.diagnostic->0.name_span == Some(span)
            }
        },
{
    let expected_name = expected_module_name(stem);
    if modules.len() == 0 {
        return ModuleMappingReport {
            ok: false,
            diagnostic: Some(ModuleMappingDiagnostic {
                code: M_NO_TOP_MODULE,
                message: "file contains no top-level module; expected exactly one".to_owned(),
                name_span: None,
            }),
        };
    }
    if modules.len() > 1 {
        // The parser already reported M0306; avoid emitting it twice.
        return ModuleMappingReport { ok: false, diagnostic: None };
    }
    match modules[0] {
        None => ModuleMappingReport { ok: true, diagnostic: None },
        Some((name_start, name_end)) => {
            let actual_name: &str = if (name_end as usize) <= content.len() {
                str_byte_range(content, name_start as usize, name_end as usize)
            } else {
                ""
            };
            proof {
                if (name_end as usize) <= encode_utf8(content@).len() {
                    vstd::utf8::encode_utf8_decode_utf8(actual_name@);
                } else {
                    assert(actual_name@ =~= Seq::<char>::empty()) by {
                        reveal_strlit("");
                    }
                }
            }
            let actual = actual_name.to_owned();
            if actual.eq(&expected_name) {
                ModuleMappingReport { ok: true, diagnostic: None }
            } else {
                let message = "module name '".to_owned()
                    .concat(actual_name)
                    .concat("' does not match file basename '")
                    .concat(stem)
                    .concat("' (expected '")
                    .concat(expected_name.as_str())
                    .concat("')");
                assert(message@ =~= mismatch_message(actual@, stem@, expected_name@));
                ModuleMappingReport {
                    ok: false,
                    diagnostic: Some(ModuleMappingDiagnostic {
                        code: M_FILE_NAME_MISMATCH,
                        message,
                        name_span: Some((name_start, name_end)),
                    }),
                }
            }
        },
    }
}

/// The PascalCase rule: the expected module name is the words of the stem's
/// kept segments (split at `_` and `-`, empty and purely numeric segments
/// dropped), in order, concatenated; each word is the segment's first
/// character as `char::to_uppercase` maps it followed by the rest of the
/// segment as `str::to_lowercase` maps it.
pub proof fn lemma_module_name_words(stem: Seq<char>)
    ensures
        module_name_of(stem) == split_segments(stem).filter(|seg: Seq<char>| kept_segment(seg)).map_values(
            |seg: Seq<char>| char_uppercase(seg[0]) + str_lowercase(seg.drop_first()),
        ).flatten(),
{
    let kf = |seg: Seq<char>| kept_segment(seg);
    let wf = |seg: Seq<char>| char_uppercase(seg[0]) + str_lowercase(seg.drop_first());
    lemma_pascal_words_flatten(split_segments(stem));
    if stem.len() == 0 {
        let segs = split_segments(stem);
        let none = Seq::<Seq<char>>::empty();
        assert(segs =~= none.push(Seq::<char>::empty()));
        none.lemma_filter_push(Seq::<char>::empty(), kf);
        assert(none.filter(kf) =~= none);
        assert(segs.filter(kf).map_values(wf) =~= none);
    }
}

proof fn lemma_pascal_words_flatten(segs: Seq<Seq<char>>)
    ensures
        pascal_words(segs) == segs.filter(|seg: Seq<char>| kept_segment(seg)).map_values(
            |seg: Seq<char>| char_uppercase(seg[0]) + str_lowercase(seg.drop_first()),
        ).flatten(),
    decreases segs.len(),
{
    let kf = |seg: Seq<char>| kept_segment(seg);
    let wf = |seg: Seq<char>| char_uppercase(seg[0]) + str_lowercase(seg.drop_first());
    if segs.len() == 0 {
        assert(segs.filter(kf) =~= Seq::<Seq<char>>::empty());
        assert(segs.filter(kf).map_values(wf) =~= Seq::<Seq<char>>::empty());
        assert(pascal_words(segs) == Seq::<char>::empty());
    } else {
        let pre = segs.drop_last();
        let last = segs.last();
        lemma_pascal_words_flatten(pre);
        assert(segs =~= pre.push(last));
        pre.lemma_filter_push(last, kf);
        if kf(last) {
            pre.filter(kf).lemma_push_map_commute(wf, last);
            pre.filter(kf).map_values(wf).lemma_flatten_push(wf(last));
        } else {
            assert(pascal_words(segs) =~= pascal_words(pre));
        }
    }
}

/// Splitting a stem cuts it at every `_` and `-` and nowhere else: no
/// segment holds a `_` or a `-`, and the segments in order are the stem with
/// those characters taken out.
pub proof fn lemma_split_segments_cut_at_delimiters(stem: Seq<char>)
    ensures
        forall|i: int, j: int|
            0 <= i < split_segments(stem).len() && 0 <= j < split_segments(stem)[i].len() ==> #[trigger] split_segments(
                stem,
            )[i][j] != '_' && split_segments(stem)[i][j] != '-',
        split_segments(stem).flatten() == stem.filter(|c: char| c != '_' && c != '-'),
    decreases stem.len(),
{
    let nd = |c: char| c != '_' && c != '-';
    lemma_split_nonempty(stem);
    if stem.len() == 0 {
        let segs = split_segments(stem);
        assert(segs =~= Seq::<Seq<char>>::empty().push(Seq::<char>::empty()));
        Seq::<Seq<char>>::empty().lemma_flatten_push(Seq::<char>::empty());
        assert(stem.filter(nd) =~= Seq::<char>::empty());
    } else {
        let pre_s = stem.drop_last();
        let c = stem.last();
        lemma_split_segments_cut_at_delimiters(pre_s);
        lemma_split_nonempty(pre_s);
        assert(stem =~= pre_s.push(c));
        pre_s.lemma_filter_push(c, nd);
        let pre = split_segments(pre_s);
        let n = pre.len() - 1;
        if is_delimiter(c) {
            pre.lemma_flatten_push(Seq::<char>::empty());
            assert(pre.flatten() + Seq::<char>::empty() =~= pre.flatten());
        } else {
            let upd = pre.update(n, pre.last().push(c));
            assert(pre =~= pre.drop_last().push(pre.last()));
            assert(upd =~= pre.drop_last().push(pre.last().push(c)));
            pre.drop_last().lemma_flatten_push(pre.last());
            pre.drop_last().lemma_flatten_push(pre.last().push(c));
            assert(pre.drop_last().flatten() + pre.last().push(c) =~= (pre.drop_last().flatten() + pre.last()).push(c));
            assert forall|i: int, j: int| 0 <= i < upd.len() && 0 <= j < upd[i].len() implies #[trigger] upd[i][j]
                != '_' && upd[i][j] != '-' by {
                if i < n {
                    assert(upd[i] == pre[i]);
                } else if j < pre.last().len() {
                    assert(upd[i][j] == pre[n][j]);
                }
            }
        }
    }
}

} // verus!
