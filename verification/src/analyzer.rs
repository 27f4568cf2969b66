//! The log analyzer: a pure, total function from the tool's console report
//! to the structured result.
//!
//! The report is split into lines (a trailing carriage return before each
//! line feed is dropped, and a final line ending is optional). Every line is
//! tested independently against each recognizer; a recognized line replaces
//! the value of the fields it feeds, so a later line wins over an earlier
//! one. Lines that no recognizer matches are ignored.

use vstd::prelude::*;
use vstd::string::*;
use crate::chars::{
    contains_seq, contains_str, find_char_exec, find_char_from, find_from, find_substr,
    lemma_find_char_from, lemma_find_from, str_to_chars,
};
use crate::fields::{empty_response, FieldsView, ResponseView, TrimListResponse};
use crate::patterns::{
    ar_canvas, ar_first, ar_image, ce_first, ce_word1, ce_word2, ce_word3, digit_strings,
    find_aspect, find_color, find_frame_rate, find_level6, find_monitor, find_version, fr_first,
    fr_value, l6_cll, l6_fall, l6_first, lemma_trim_tokens_digits, mm_digits, mm_first, mv_end,
    mv_first, trim_bounds, trim_tokens, trim_tokens_exec, trim_ws,
};

verus! {

/// A line as `str::lines` yields it: a trailing carriage return is dropped.
pub open spec fn strip_cr(l: Seq<char>) -> Seq<char> {
    if l.len() > 0 && l.last() == '\r' {
        l.drop_last()
    } else {
        l
    }
}

/// The lines of `text` from position `i` on, split at line feeds; the final
/// line ending is optional.
pub open spec fn lines_from(text: Seq<char>, i: int) -> Seq<Seq<char>>
    decreases text.len() - i,
    via lines_from_dec
{
    if i < 0 || i >= text.len() {
        Seq::<Seq<char>>::empty()
    } else {
        match find_char_from(text, '\n', i) {
            None => seq![text.subrange(i, text.len() as int)],
            Some(j) => seq![strip_cr(text.subrange(i, j))] + lines_from(text, j + 1),
        }
    }
}

#[via_fn]
proof fn lines_from_dec(text: Seq<char>, i: int) {
    if 0 <= i < text.len() {
        lemma_find_char_from(text, '\n', i);
    }
}

/// The lines of `text`.
pub open spec fn spec_lines(text: Seq<char>) -> Seq<Seq<char>> {
    lines_from(text, 0)
}

/// Effect of one line on the version field.
pub open spec fn apply_version(f: FieldsView, l: Seq<char>) -> FieldsView {
    if contains_seq(l, "Metadata version:"@) && mv_first(l, 0) is Some {
        let q = mv_first(l, 0).unwrap();
        FieldsView { xml_version: Some(l.subrange(q, mv_end(l, q))), ..f }
    } else {
        f
    }
}

/// Effect of one line on the CM-version field: everything after the
/// trigger, trimmed of surrounding whitespace.
pub open spec fn apply_cm(f: FieldsView, l: Seq<char>) -> FieldsView {
    if contains_seq(l, "Level254 CMVersion:"@) {
        let p = find_from(l, "Level254 CMVersion:"@, 0).unwrap() + "Level254 CMVersion:"@.len();
        FieldsView { cm_version: Some(trim_ws(l.subrange(p, l.len() as int))), ..f }
    } else {
        f
    }
}

/// Effect of one line on the two aspect-ratio fields.
pub open spec fn apply_aspect(f: FieldsView, l: Seq<char>) -> FieldsView {
    if contains_seq(l, "Aspect Ratios (Canvas - Image):"@) && ar_first(l, 0) is Some {
        let q = ar_first(l, 0).unwrap();
        FieldsView { aspect_canvas: Some(ar_canvas(l, q)), aspect_image: Some(ar_image(l, q)), ..f }
    } else {
        f
    }
}

/// Effect of one line on the frame-rate field.
pub open spec fn apply_frame(f: FieldsView, l: Seq<char>) -> FieldsView {
    if contains_seq(l, "Frame Rate:"@) && fr_first(l, 0) is Some {
        FieldsView { frame_rate: Some(fr_value(l, fr_first(l, 0).unwrap())), ..f }
    } else {
        f
    }
}

/// Effect of one line on the mastering-monitor field.
pub open spec fn apply_monitor(f: FieldsView, l: Seq<char>) -> FieldsView {
    if contains_seq(l, "Mastering Monitor:"@) && mm_first(l, 0) is Some {
        FieldsView { mastering_monitor: Some(mm_digits(l, mm_first(l, 0).unwrap())), ..f }
    } else {
        f
    }
}

/// Effect of one line on the two level-6 fields.
pub open spec fn apply_level6(f: FieldsView, l: Seq<char>) -> FieldsView {
    if contains_seq(l, "Level6 (MaxFALL - MaxCLL):"@) && l6_first(l, 0) is Some {
        let q = l6_first(l, 0).unwrap();
        FieldsView { max_fall: Some(l6_fall(l, q)), max_cll: Some(l6_cll(l, q)), ..f }
    } else {
        f
    }
}

/// Effect of one line on the five color-encoding fields.
pub open spec fn apply_color(f: FieldsView, l: Seq<char>) -> FieldsView {
    if contains_seq(l, "Color Encoding:"@) && ce_first(l, 0) is Some {
        let q = ce_first(l, 0).unwrap();
        FieldsView {
            color_space: Some(ce_word1(l, q)),
            signal_range: Some(ce_word2(l, q)),
            color_primaries: Some(ce_word3(l, q)),
            white_point: Some("D65"@),
            eotf: Some("pq"@),
            ..f
        }
    } else {
        f
    }
}

/// Effect of one line on the whole result: every recognizer is tried, each
/// independent of the others.
pub open spec fn apply_line(r: ResponseView, l: Seq<char>) -> ResponseView {
    let l2 = if contains_seq(l, "L2 Trim Count"@) {
        trim_tokens(l, 0)
    } else {
        r.trim_list.l2
    };
    let l8 = if contains_seq(l, "L8 Trim Count"@) {
        trim_tokens(l, 0)
    } else {
        r.trim_list.l8
    };
    let f = apply_color(
        apply_level6(
            apply_monitor(
                apply_frame(apply_aspect(apply_cm(apply_version(r.xml_data, l), l), l), l),
            l),
        l),
    l);
    ResponseView {
        xml_data: f,
        trim_list: crate::fields::TrimListView { l2, l8 },
    }
}

/// Effect of a sequence of lines, in order.
pub open spec fn apply_lines(r: ResponseView, ls: Seq<Seq<char>>) -> ResponseView
    decreases ls.len(),
{
    if ls.len() == 0 {
        r
    } else {
        apply_lines(apply_line(r, ls.first()), ls.drop_first())
    }
}

/// The structured result of analyzing `text`.
pub open spec fn analyze_spec(text: Seq<char>) -> ResponseView {
    apply_lines(empty_response(), spec_lines(text))
}

/// Applies every recognizer to one line of the report.
fn process_line(ls: &str, v: &Vec<char>, resp: &mut TrimListResponse)
    requires
        v@ == ls@,
    ensures
        final(resp)@ == apply_line(old(resp)@, v@),
{
    let ghost r0 = resp@;
    let ghost l = v@;
    proof {
        reveal_strlit("L2 Trim Count");
        reveal_strlit("L8 Trim Count");
        reveal_strlit("Metadata version:");
        reveal_strlit("Level254 CMVersion:");
        reveal_strlit("Aspect Ratios (Canvas - Image):");
        reveal_strlit("Frame Rate:");
        reveal_strlit("Mastering Monitor:");
        reveal_strlit("Level6 (MaxFALL - MaxCLL):");
        reveal_strlit("Color Encoding:");
    }
    if contains_str(v, "L2 Trim Count") {
        resp.trim_list.l2 = trim_tokens_exec(ls, v);
    }
    if contains_str(v, "L8 Trim Count") {
        resp.trim_list.l8 = trim_tokens_exec(ls, v);
    }
    if contains_str(v, "Metadata version:") {
        match find_version(ls, v) {
            Some(s) => {
                resp.xml_data.xml_version = Some(s);
            },
            None => {},
        }
    }
    let cm_pat = str_to_chars("Level254 CMVersion:");
    let plen = cm_pat.len();
    let nv = v.len();
    match find_substr(v, &cm_pat) {
        Some(p0) => {
            proof {
                lemma_find_from(l, "Level254 CMVersion:"@, 0);
                assert(p0 + plen <= nv);
            }
            let p = p0 + plen;
            let (a, b) = trim_bounds(v, p, v.len());
            resp.xml_data.cm_version = Some(String::from_str(ls.substring_char(a, b)));
        },
        None => {},
    }
    if contains_str(v, "Aspect Ratios (Canvas - Image):") {
        match find_aspect(ls, v) {
            Some(p) => {
                resp.xml_data.aspect_canvas = Some(p.0);
                resp.xml_data.aspect_image = Some(p.1);
            },
            None => {},
        }
    }
    if contains_str(v, "Frame Rate:") {
        match find_frame_rate(v) {
            Some(s) => {
                resp.xml_data.frame_rate = Some(s);
            },
            None => {},
        }
    }
    if contains_str(v, "Mastering Monitor:") {
        match find_monitor(ls, v) {
            Some(s) => {
                resp.xml_data.mastering_monitor = Some(s);
            },
            None => {},
        }
    }
    if contains_str(v, "Level6 (MaxFALL - MaxCLL):") {
        match find_level6(ls, v) {
            Some(p) => {
                resp.xml_data.max_fall = Some(p.0);
                resp.xml_data.max_cll = Some(p.1);
            },
            None => {},
        }
    }
    if contains_str(v, "Color Encoding:") {
        match find_color(ls, v) {
            Some(w) => {
                resp.xml_data.color_space = Some(w.0);
                resp.xml_data.signal_range = Some(w.1);
                resp.xml_data.color_primaries = Some(w.2);
                resp.xml_data.white_point = Some(String::from_str("D65"));
                resp.xml_data.eotf = Some(String::from_str("pq"));
            },
            None => {},
        }
    }
    proof {
        let f1 = apply_version(r0.xml_data, l);
        let f2 = apply_cm(f1, l);
        let f3 = apply_aspect(f2, l);
        let f4 = apply_frame(f3, l);
        let f5 = apply_monitor(f4, l);
        let f6 = apply_level6(f5, l);
        let f7 = apply_color(f6, l);
        assert(resp@.xml_data =~= f7);
        assert(resp@ =~= apply_line(r0, l));
    }
}

/// Analyzes the console report of one validation run.
///
/// Total over every input string: each line is matched independently, an
/// unrecognized line changes nothing, and the result is exactly what
/// [`analyze_spec`] describes for the input.
#[verifier::rlimit(60)]
pub fn analyze_logs(output: &str) -> (r: TrimListResponse)
    ensures
        r@ == analyze_spec(output@),
{
    let chars = str_to_chars(output);
    let n = chars.len();
    let mut resp = TrimListResponse::new();
    let mut i: usize = 0;
    while i < n
        invariant
            chars@ == output@,
            i <= n,
            n == chars@.len(),
            analyze_spec(output@) == apply_lines(resp@, lines_from(output@, i as int)),
        decreases n - i,
    {
        let ghost text = output@;
        let found = find_char_exec(&chars, '\n', i);
        let le: usize;
        let next: usize;
        let mut lend: usize;
        match found {
            Some(j) => {
                le = j;
                next = j + 1;
                lend = le;
                if le > i && chars[le - 1] == '\r' {
                    lend = le - 1;
                }
            },
            None => {
                le = n;
                next = n;
                lend = n;
            },
        }
        let line_str = output.substring_char(i, lend);
        let line_vec = crate::chars::copy_range(&chars, i, lend);
        proof {
            let line = line_vec@;
            match found {
                Some(j) => {
                    assert(strip_cr(text.subrange(i as int, j as int)) =~= text.subrange(
                        i as int,
                        lend as int,
                    ));
                    assert(lines_from(text, i as int) == seq![
                        strip_cr(text.subrange(i as int, j as int)),
                    ] + lines_from(text, next as int));
                    assert(lines_from(text, i as int) == seq![line] + lines_from(
                        text,
                        next as int,
                    ));
                },
                None => {
                    assert(lines_from(text, i as int) == seq![
                        text.subrange(i as int, text.len() as int),
                    ]);
                    assert(lines_from(text, next as int) =~= Seq::<Seq<char>>::empty());
                    assert(lines_from(text, i as int) =~= seq![line] + lines_from(
                        text,
                        next as int,
                    ));
                },
            }
            let rest = lines_from(text, next as int);
            let full = seq![line] + rest;
            assert(full.first() == line);
            assert(full.drop_first() =~= rest);
            assert(apply_lines(resp@, full) == apply_lines(apply_line(resp@, line), rest));
        }
        process_line(line_str, &line_vec, &mut resp);
        i = next;
    }
    proof {
        assert(lines_from(output@, i as int) =~= Seq::<Seq<char>>::empty());
        assert(apply_lines(resp@, lines_from(output@, i as int)) == resp@);
    }
    resp
}

/// The empty report yields the empty result: no field set and both trim
/// lists empty.
pub proof fn lemma_analyze_empty()
    ensures
        analyze_spec(Seq::<char>::empty()) == empty_response(),
{
    assert(lines_from(Seq::<char>::empty(), 0) =~= Seq::<Seq<char>>::empty());
}

/// Analysis folds over the lines from the left: the result of a report is
/// the result of its first part, updated by the lines of the second part.
/// A field line in the later part therefore overwrites what an earlier
/// line set.
pub proof fn lemma_apply_lines_concat(r: ResponseView, ls1: Seq<Seq<char>>, ls2: Seq<Seq<char>>)
    ensures
        apply_lines(r, ls1 + ls2) == apply_lines(apply_lines(r, ls1), ls2),
    decreases ls1.len(),
{
    if ls1.len() == 0 {
        assert(ls1 + ls2 =~= ls2);
    } else {
        assert((ls1 + ls2).first() == ls1.first());
        assert((ls1 + ls2).drop_first() =~= ls1.drop_first() + ls2);
        lemma_apply_lines_concat(apply_line(r, ls1.first()), ls1.drop_first(), ls2);
    }
}

/// One line keeps the trim lists well formed: whatever it does to them,
/// every entry stays a nonempty run of decimal digits.
pub proof fn lemma_apply_line_trim_shape(r: ResponseView, l: Seq<char>)
    requires
        digit_strings(r.trim_list.l2),
        digit_strings(r.trim_list.l8),
    ensures
        digit_strings(apply_line(r, l).trim_list.l2),
        digit_strings(apply_line(r, l).trim_list.l8),
{
    lemma_trim_tokens_digits(l, 0);
}

/// A sequence of lines keeps the trim lists well formed.
pub proof fn lemma_apply_lines_trim_shape(r: ResponseView, ls: Seq<Seq<char>>)
    requires
        digit_strings(r.trim_list.l2),
        digit_strings(r.trim_list.l8),
    ensures
        digit_strings(apply_lines(r, ls).trim_list.l2),
        digit_strings(apply_lines(r, ls).trim_list.l8),
    decreases ls.len(),
{
    if ls.len() > 0 {
        lemma_apply_line_trim_shape(r, ls.first());
        lemma_apply_lines_trim_shape(apply_line(r, ls.first()), ls.drop_first());
    }
}

/// Every analysis result is well formed: each entry of either trim list is
/// a nonempty run of decimal digits. (The field names are closed by
/// construction: the field map is a struct of the thirteen named fields,
/// absent ones contributing nothing to its pairs.)
pub proof fn lemma_analyze_trim_shape(text: Seq<char>)
    ensures
        digit_strings(analyze_spec(text).trim_list.l2),
        digit_strings(analyze_spec(text).trim_list.l8),
{
    lemma_apply_lines_trim_shape(empty_response(), spec_lines(text));
}

/// Analysis is deterministic: the result is a function of the input text
/// alone, so two runs over the same text agree structurally.
pub proof fn lemma_analyze_deterministic(t1: Seq<char>, t2: Seq<char>)
    requires
        t1 == t2,
    ensures
        analyze_spec(t1) == analyze_spec(t2),
{
}

} // verus!
