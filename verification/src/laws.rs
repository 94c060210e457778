//! What holds of every pattern that compiles.

use vstd::prelude::*;
use vstd::utf8::encode_utf8;
use crate::class::{is_alpha, is_alphanumeric, is_blank, CLOSE_BRACE, OPEN_BRACE, SLASH};
use crate::error::ParseError;
use crate::grammar::{
    blank_end, is_items, is_param, is_param_named, is_pattern, is_segment,
    lemma_alphanumeric_end_bounds, lemma_alphanumeric_end_unique, lemma_blank_end_bounds,
    lemma_param_at_bounds, lemma_segment_bytes, lemma_segment_end_bounds, next_slash, param_at,
    parse, pchar_len, segment_end, segments_from, tail,
};
use crate::part::PartView;
use crate::paths::{
    captures, is_compiled, is_matched, match_path, match_views, Match, MatchView, Path,
};

verus! {

/// The bytes of `s` from `from` on, without the blanks.
pub open spec fn without_blanks_from(s: Seq<u8>, from: int) -> Seq<u8>
    decreases s.len() - from,
{
    if !(0 <= from < s.len()) {
        seq![]
    } else if is_blank(s[from]) {
        without_blanks_from(s, from + 1)
    } else {
        seq![s[from]] + without_blanks_from(s, from + 1)
    }
}

/// `s` without its blanks. In a pattern they stand inside braces only, so
/// this is the pattern with each parameter written as `{name}`.
pub open spec fn without_blanks(s: Seq<u8>) -> Seq<u8> {
    without_blanks_from(s, 0)
}

/// How a part is written in a pattern: a literal as it is, a parameter as its
/// name in braces.
pub open spec fn written(part: PartView) -> Seq<u8> {
    match part {
        PartView::Literal(bytes) => bytes,
        PartView::Param { name } => seq![OPEN_BRACE] + name + seq![CLOSE_BRACE],
    }
}

/// The parts written one behind the other.
pub open spec fn spelled(parts: Seq<PartView>) -> Seq<u8>
    decreases parts.len(),
{
    if parts.len() == 0 {
        seq![]
    } else {
        written(parts[0]) + spelled(parts.drop_first())
    }
}

/// A name as the grammar has it: a letter, then letters and digits.
pub open spec fn is_name(name: Seq<u8>) -> bool {
    &&& name.len() > 0
    &&& is_alpha(name[0])
    &&& forall|i: int| 0 < i < name.len() ==> is_alphanumeric(#[trigger] name[i])
}

/// A part as the parser makes it: a literal is not empty, and a parameter has
/// a name.
pub open spec fn is_sound(part: PartView) -> bool {
    match part {
        PartView::Literal(bytes) => bytes.len() > 0,
        PartView::Param { name } => is_name(name),
    }
}

/// Parts as the parser makes them: each is sound, no literal follows a
/// literal, and a parameter follows a literal that ends in `/`.
pub open spec fn well_formed(parts: Seq<PartView>) -> bool {
    &&& forall|i: int| 0 <= i < parts.len() ==> is_sound(#[trigger] parts[i])
    &&& forall|i: int|
        0 <= i < parts.len() && #[trigger] parts[i] is Param ==> i > 0 && parts[i - 1] is Literal
            && parts[i - 1]->Literal_0.last() == SLASH
    &&& forall|i: int|
        0 < i < parts.len() && #[trigger] parts[i] is Literal ==> parts[i - 1] is Param
}

proof fn lemma_skip_blanks(s: Seq<u8>, i: int, j: int)
    requires
        0 <= i <= j <= s.len(),
        forall|k: int| i <= k < j ==> is_blank(#[trigger] s[k]),
    ensures
        without_blanks_from(s, i) == without_blanks_from(s, j),
    decreases j - i,
{
    if i < j {
        lemma_skip_blanks(s, i + 1, j);
    }
}

proof fn lemma_keep_others(s: Seq<u8>, i: int, j: int)
    requires
        0 <= i <= j <= s.len(),
        forall|k: int| i <= k < j ==> !is_blank(#[trigger] s[k]),
    ensures
        without_blanks_from(s, i) == s.subrange(i, j) + without_blanks_from(s, j),
    decreases j - i,
{
    if i < j {
        lemma_keep_others(s, i + 1, j);
    }
}

proof fn lemma_spelled_append(first: Seq<PartView>, second: Seq<PartView>)
    ensures
        spelled(first + second) == spelled(first) + spelled(second),
    decreases first.len(),
{
    if first.len() > 0 {
        assert((first + second).drop_first() =~= first.drop_first() + second);
        lemma_spelled_append(first.drop_first(), second);
    }
}

/// The text of a parameter with the `/` before it, once its blanks are out.
proof fn lemma_param_text(s: Seq<u8>, slash: int)
    requires
        0 <= slash,
        slash + 1 < s.len(),
        s[slash] == SLASH,
        s[slash + 1] == OPEN_BRACE,
        param_at(s, slash + 2) is Ok,
    ensures
        ({
            let span = param_at(s, slash + 2)->Ok_0;
            without_blanks_from(s, slash) == seq![SLASH] + (seq![OPEN_BRACE] + s.subrange(
                span.name_start,
                span.name_end,
            ) + seq![CLOSE_BRACE]) + without_blanks_from(s, span.end)
        }),
{
    let span = param_at(s, slash + 2)->Ok_0;
    lemma_param_at_bounds(s, slash + 2);
    lemma_blank_end_bounds(s, slash + 2);
    lemma_alphanumeric_end_bounds(s, span.name_start + 1);
    lemma_blank_end_bounds(s, span.name_end);
    lemma_keep_others(s, slash, slash + 2);
    lemma_skip_blanks(s, slash + 2, span.name_start);
    lemma_keep_others(s, span.name_start, span.name_end);
    lemma_skip_blanks(s, span.name_end, span.end - 1);
    lemma_keep_others(s, span.end - 1, span.end);
}

/// One part, written out.
proof fn lemma_spelled_one(part: PartView)
    ensures
        spelled(seq![part]) == written(part),
{
    reveal_with_fuel(spelled, 2);
}

/// A literal and a parameter, written out.
proof fn lemma_spelled_pair(literal: Seq<u8>, name: Seq<u8>)
    ensures
        spelled(seq![PartView::Literal(literal), PartView::Param { name }]) == literal + (seq![
            OPEN_BRACE,
        ] + name + seq![CLOSE_BRACE]),
{
    let param = PartView::Param { name };
    let head = seq![PartView::Literal(literal), param];
    assert(head.drop_first() =~= seq![param]);
    lemma_spelled_one(param);
}

proof fn lemma_segments_spell(s: Seq<u8>, anchor: int, cursor: int)
    requires
        0 <= anchor <= cursor <= s.len(),
        forall|k: int| anchor <= k < cursor ==> !is_blank(#[trigger] s[k]),
        segments_from(s, anchor, cursor) is Ok,
    ensures
        spelled(segments_from(s, anchor, cursor)->Ok_0) == s.subrange(anchor, cursor)
            + without_blanks_from(s, cursor),
    decreases s.len() - cursor,
{
    if cursor >= s.len() {
        if anchor < cursor {
            lemma_spelled_one(PartView::Literal(s.subrange(anchor, cursor)));
        }
    } else if cursor + 1 < s.len() && s[cursor + 1] == OPEN_BRACE {
        lemma_param_at_bounds(s, cursor + 2);
        let span = param_at(s, cursor + 2)->Ok_0;
        let rest = segments_from(s, span.end, span.end)->Ok_0;
        let literal = s.subrange(anchor, cursor + 1);
        let name = s.subrange(span.name_start, span.name_end);
        let head = seq![PartView::Literal(literal), PartView::Param { name }];
        // The parts are a literal, a parameter and the parts of the rest:
        // so is the text.
        lemma_segments_spell(s, span.end, span.end);
        lemma_spelled_append(head, rest);
        lemma_spelled_pair(literal, name);
        lemma_param_text(s, cursor);
    } else {
        let end = segment_end(s, cursor + 1);
        lemma_segment_end_bounds(s, cursor + 1);
        lemma_segment_bytes(s, cursor + 1);
        lemma_segments_spell(s, anchor, end);
        lemma_keep_others(s, cursor, end);
    }
}

/// The parts of a pattern, written out again, give the pattern with the
/// blanks inside its braces taken out. The root path `/` is the one
/// exception: it has no parts.
pub proof fn law_parts_spell_the_pattern(pattern: Seq<u8>)
    requires
        parse(pattern) is Ok,
        pattern != seq![SLASH],
    ensures
        spelled(parse(pattern)->Ok_0) == without_blanks(pattern),
{
    assert(pattern.len() != 1) by {
        if pattern.len() == 1 {
            assert(pattern =~= seq![SLASH]);
        }
    }
    lemma_segments_spell(pattern, 0, 0);
}

/// The root path, and no other pattern, compiles to no parts at all.
pub proof fn law_root_has_no_parts(pattern: Seq<u8>)
    requires
        parse(pattern) is Ok,
    ensures
        parse(pattern)->Ok_0.len() == 0 <==> pattern == seq![SLASH],
{
    if pattern.len() == 1 {
        assert(pattern =~= seq![SLASH]);
    } else {
        lemma_segments_not_empty(pattern, 0, 0);
    }
}

proof fn lemma_segments_not_empty(s: Seq<u8>, anchor: int, cursor: int)
    requires
        0 <= anchor <= cursor <= s.len(),
        anchor < cursor || cursor < s.len(),
        segments_from(s, anchor, cursor) is Ok,
    ensures
        segments_from(s, anchor, cursor)->Ok_0.len() > 0,
    decreases s.len() - cursor,
{
    if cursor < s.len() && !(cursor + 1 < s.len() && s[cursor + 1] == OPEN_BRACE) {
        lemma_segment_end_bounds(s, cursor + 1);
        lemma_segments_not_empty(s, anchor, segment_end(s, cursor + 1));
    }
}

/// The first `/` from `i` on stands at `j` if none stands before it.
proof fn lemma_next_slash_unique(s: Seq<u8>, i: int, j: int)
    requires
        0 <= i <= j <= s.len(),
        forall|k: int| i <= k < j ==> #[trigger] s[k] != SLASH,
        j < s.len() ==> s[j] == SLASH,
    ensures
        next_slash(s, i) == j,
    decreases j - i,
{
    if i < j {
        lemma_next_slash_unique(s, i + 1, j);
    }
}

proof fn lemma_next_slash_bounds(s: Seq<u8>, i: int)
    requires
        0 <= i <= s.len(),
    ensures
        i <= next_slash(s, i) <= s.len(),
        next_slash(s, i) < s.len() ==> s[next_slash(s, i)] == SLASH,
    decreases s.len() - i,
{
    if i < s.len() && s[i] != SLASH {
        lemma_next_slash_bounds(s, i + 1);
    }
}

/// A run of blanks from `i` that stops at `j` is the run that starts at `i`.
proof fn lemma_blank_end_unique(s: Seq<u8>, i: int, j: int)
    requires
        0 <= i <= j <= s.len(),
        forall|k: int| i <= k < j ==> is_blank(#[trigger] s[k]),
        j < s.len() ==> !is_blank(s[j]),
    ensures
        blank_end(s, i) == j,
    decreases j - i,
{
    if i < j {
        lemma_blank_end_unique(s, i + 1, j);
    }
}

/// What the scan takes from `i` is a segment.
proof fn lemma_scan_is_segment(s: Seq<u8>, i: int)
    requires
        0 <= i <= s.len(),
    ensures
        is_segment(s, i, segment_end(s, i)),
    decreases s.len() - i,
{
    lemma_segment_end_bounds(s, i);
    if pchar_len(s, i) > 0 {
        lemma_scan_is_segment(s, i + pchar_len(s, i));
        lemma_segment_end_bounds(s, i + pchar_len(s, i));
    }
}

/// A segment behind which no `pchar` starts is what the scan takes.
proof fn lemma_segment_is_scan(s: Seq<u8>, i: int, j: int)
    requires
        0 <= i <= j <= s.len(),
        is_segment(s, i, j),
        pchar_len(s, j) == 0,
    ensures
        segment_end(s, i) == j,
    decreases j - i,
{
    if i < j {
        lemma_segment_is_scan(s, i + pchar_len(s, i), j);
    }
}

/// The parameter that the parser reads behind a brace is a parameter of the
/// grammar.
proof fn lemma_read_param_is_param(s: Seq<u8>, brace: int)
    requires
        0 <= brace < s.len(),
        s[brace] == OPEN_BRACE,
        param_at(s, brace + 1) is Ok,
    ensures
        is_param(s, brace, param_at(s, brace + 1)->Ok_0.end),
        forall|k: int| brace <= k < param_at(s, brace + 1)->Ok_0.end ==> #[trigger] s[k] != SLASH,
{
    let span = param_at(s, brace + 1)->Ok_0;
    lemma_param_at_bounds(s, brace + 1);
    lemma_blank_end_bounds(s, brace + 1);
    lemma_alphanumeric_end_bounds(s, span.name_start + 1);
    lemma_blank_end_bounds(s, span.name_end);
    assert(is_param_named(s, brace, span.end, span.name_start, span.name_end));
}

/// A parameter of the grammar is read by the parser, up to its end.
proof fn lemma_param_is_read(s: Seq<u8>, brace: int, to: int)
    requires
        0 <= brace < to <= s.len(),
        is_param(s, brace, to),
    ensures
        param_at(s, brace + 1) is Ok,
        param_at(s, brace + 1)->Ok_0.end == to,
{
    let (name_start, name_end) = choose|name_start: int, name_end: int|
        #[trigger] is_param_named(s, brace, to, name_start, name_end);
    lemma_blank_end_unique(s, brace + 1, name_start);
    lemma_alphanumeric_end_unique(s, name_start + 1, name_end);
    lemma_blank_end_unique(s, name_end, to - 1);
}

proof fn lemma_segments_follow_the_grammar(s: Seq<u8>, anchor: int, cursor: int)
    requires
        0 <= cursor <= s.len(),
        cursor < s.len() ==> s[cursor] == SLASH,
    ensures
        segments_from(s, anchor, cursor) is Ok <==> (cursor < s.len() ==> is_items(s, cursor + 1)),
    decreases s.len() - cursor,
{
    if cursor < s.len() {
        let start = cursor + 1;
        let to = next_slash(s, start);
        let parsed = segments_from(s, anchor, cursor) is Ok;
        lemma_next_slash_bounds(s, start);
        if start < s.len() && s[start] == OPEN_BRACE {
            // No segment starts with a brace: this is a parameter or nothing.
            if is_param(s, start, to) {
                lemma_param_is_read(s, start, to);
            }
            if param_at(s, start + 1) is Ok {
                let span = param_at(s, start + 1)->Ok_0;
                lemma_param_at_bounds(s, start + 1);
                lemma_read_param_is_param(s, start);
                if span.end == s.len() || s[span.end] == SLASH {
                    lemma_next_slash_unique(s, start, span.end);
                    lemma_segments_follow_the_grammar(s, span.end, span.end);
                    assert(parsed == is_items(s, start));
                }
            }
        } else {
            let end = segment_end(s, start);
            lemma_segment_end_bounds(s, start);
            lemma_segment_bytes(s, start);
            lemma_scan_is_segment(s, start);
            // No parameter starts with anything but a brace.
            assert(!is_param(s, start, to)) by {
                if is_param(s, start, to) {
                    let (name_start, name_end) = choose|name_start: int, name_end: int|
                        #[trigger] is_param_named(s, start, to, name_start, name_end);
                }
            }
            if is_segment(s, start, to) {
                lemma_segment_is_scan(s, start, to);
            }
            assert(parsed == (segments_from(s, anchor, end) is Ok));
            if end == s.len() || s[end] == SLASH {
                lemma_next_slash_unique(s, start, end);
                lemma_segments_follow_the_grammar(s, anchor, end);
            }
        }
    }
}

/// The parser accepts the patterns of the grammar, and nothing else.
pub proof fn law_parse_accepts_the_grammar(pattern: Seq<u8>)
    ensures
        parse(pattern) is Ok <==> is_pattern(pattern),
{
    if pattern.len() >= 1 && pattern[0] == SLASH {
        lemma_segments_follow_the_grammar(pattern, 0, 0);
    }
}

/// Every pattern of the grammar compiles, and nothing else does; and the
/// parts of a compiled pattern, written out again, give the pattern with the
/// blanks inside its braces taken out. The root path `/` is the one
/// exception to the second: it has no parts.
pub proof fn law_patterns_compile(pattern: Seq<char>, compiled: Result<Path, ParseError>)
    requires
        is_compiled(pattern, compiled),
    ensures
        compiled is Ok <==> is_pattern(encode_utf8(pattern)),
        compiled matches Ok(route) ==> {
            &&& well_formed(route.parts())
            &&& route.parts().len() == 0 <==> encode_utf8(pattern) == seq![SLASH]
            &&& encode_utf8(pattern) != seq![SLASH] ==> spelled(route.parts()) == without_blanks(
                encode_utf8(pattern),
            )
        },
{
    let bytes = encode_utf8(pattern);
    law_parse_accepts_the_grammar(bytes);
    if parse(bytes) is Ok {
        law_root_has_no_parts(bytes);
        law_parts_are_well_formed(bytes);
        if bytes != seq![SLASH] {
            law_parts_spell_the_pattern(bytes);
        }
    }
}

/// Compiling one pattern twice gives twice the same: the same parts of the
/// same pattern, or the same error.
pub proof fn law_compiling_is_a_function(
    pattern: Seq<char>,
    first: Result<Path, ParseError>,
    second: Result<Path, ParseError>,
)
    requires
        is_compiled(pattern, first),
        is_compiled(pattern, second),
    ensures
        match (first, second) {
            (Ok(a), Ok(b)) => a.parts() == b.parts() && a.raw() == b.raw(),
            (Err(a), Err(b)) => a == b,
            _ => false,
        },
{
}

/// Matching one path twice against one pattern gives twice the same.
pub proof fn law_matching_is_a_function(
    parts: Seq<PartView>,
    path: Seq<u8>,
    first: Option<Vec<Match>>,
    second: Option<Vec<Match>>,
)
    requires
        is_matched(parts, path, first),
        is_matched(parts, path, second),
    ensures
        match (first, second) {
            (Some(a), Some(b)) => match_views(a@) == match_views(b@),
            (None, None) => true,
            _ => false,
        },
{
}

/// The names of the parameters among the parts, in their order.
pub open spec fn param_names(parts: Seq<PartView>) -> Seq<Seq<u8>>
    decreases parts.len(),
{
    if parts.len() == 0 {
        seq![]
    } else {
        match parts[0] {
            PartView::Literal(_) => param_names(parts.drop_first()),
            PartView::Param { name } => seq![name] + param_names(parts.drop_first()),
        }
    }
}

/// The names of the matches, in their order.
pub open spec fn match_names(matches: Seq<MatchView>) -> Seq<Seq<u8>> {
    Seq::new(matches.len(), |i: int| matches[i].name)
}

/// The path that the parts spell once each parameter is replaced by the
/// value of the match that stands for it.
pub open spec fn filled(parts: Seq<PartView>, matches: Seq<MatchView>) -> Seq<u8>
    decreases parts.len(),
{
    if parts.len() == 0 {
        seq![]
    } else {
        match parts[0] {
            PartView::Literal(bytes) => bytes + filled(parts.drop_first(), matches),
            PartView::Param { name } => {
                if matches.len() == 0 {
                    seq![]
                } else {
                    matches[0].value + filled(parts.drop_first(), matches.drop_first())
                }
            },
        }
    }
}

proof fn lemma_captures(parts: Seq<PartView>, path: Seq<u8>)
    requires
        captures(parts, path) is Some,
    ensures
        match_names(captures(parts, path)->Some_0) == param_names(parts),
        filled(parts, captures(parts, path)->Some_0) == path,
        forall|i: int|
            0 <= i < captures(parts, path)->Some_0.len() ==> is_segment(
                (#[trigger] captures(parts, path)->Some_0[i]).value,
                0,
                captures(parts, path)->Some_0[i].value.len() as int,
            ),
    decreases parts.len(),
{
    if parts.len() > 0 {
        match parts[0] {
            PartView::Literal(bytes) => {
                lemma_captures(parts.drop_first(), path.skip(bytes.len() as int));
            },
            PartView::Param { name } => {
                let found = captures(parts, path)->Some_0;
                let end = segment_end(path, 0);
                lemma_segment_end_bounds(path, 0);
                // The first match is the segment at the start of the path,
                // and the others are those of the rest.
                lemma_captures(parts.drop_first(), path.skip(end));
                assert(found.drop_first() =~= captures(parts.drop_first(), path.skip(end))->Some_0);
                lemma_scan_is_segment(path, 0);
                lemma_segment_of_prefix(path, 0, end);
            },
        }
    }
}

/// A segment of `s` that starts at `from` is a segment of what `s` holds up
/// to its end, too.
proof fn lemma_segment_of_prefix(s: Seq<u8>, from: int, to: int)
    requires
        0 <= from <= to <= s.len(),
        is_segment(s, from, to),
    ensures
        is_segment(s.take(to), from, to),
    decreases to - from,
{
    if from < to {
        lemma_segment_of_prefix(s, from + pchar_len(s, from), to);
    }
}

/// Where a path matches, there is one match for each parameter of the
/// pattern, in the order of the pattern and under the parameter's name; each
/// value is a segment, which an empty one is too; and the literals with the
/// values in place of the parameters spell the path.
pub proof fn law_matches_follow_the_pattern(parts: Seq<PartView>, path: Seq<u8>)
    requires
        match_path(parts, path) is Some,
        parts.len() > 0,
    ensures
        match_names(match_path(parts, path)->Some_0) == param_names(parts),
        filled(parts, match_path(parts, path)->Some_0) == path,
        forall|i: int|
            0 <= i < match_path(parts, path)->Some_0.len() ==> is_segment(
                (#[trigger] match_path(parts, path)->Some_0[i]).value,
                0,
                match_path(parts, path)->Some_0[i].value.len() as int,
            ),
{
    lemma_captures(parts, path);
}

/// The pattern without parts matches the root path and no other, and takes
/// nothing from it.
pub proof fn law_root_matches_the_root(path: Seq<u8>)
    ensures
        match_path(Seq::<PartView>::empty(), path) is Some <==> path == seq![SLASH],
        match_path(Seq::<PartView>::empty(), path) matches Some(found) ==> found.len() == 0,
{
}

/// A pattern that is one literal matches the path that is this literal,
/// byte for byte, and no other.
pub proof fn law_literal_matches_itself(literal: Seq<u8>, path: Seq<u8>)
    ensures
        match_path(seq![PartView::Literal(literal)], path) is Some <==> path == literal,
        match_path(seq![PartView::Literal(literal)], path) matches Some(found) ==> found.len()
            == 0,
{
    reveal_with_fuel(captures, 2);
    if literal.is_prefix_of(path) && path.skip(literal.len() as int).len() == 0 {
        assert(path =~= literal);
    }
}

proof fn lemma_segments_well_formed(s: Seq<u8>, anchor: int, cursor: int)
    requires
        0 <= anchor <= cursor <= s.len(),
        segments_from(s, anchor, cursor) is Ok,
    ensures
        well_formed(segments_from(s, anchor, cursor)->Ok_0),
    decreases s.len() - cursor,
{
    if cursor >= s.len() {
    } else if cursor + 1 < s.len() && s[cursor + 1] == OPEN_BRACE {
        // A literal that ends in `/`, a parameter, and then the parts of
        // the rest, which are well formed.
        let span = param_at(s, cursor + 2)->Ok_0;
        lemma_param_at_bounds(s, cursor + 2);
        lemma_blank_end_bounds(s, cursor + 2);
        lemma_alphanumeric_end_bounds(s, span.name_start + 1);
        lemma_segments_well_formed(s, span.end, span.end);
    } else {
        lemma_segment_end_bounds(s, cursor + 1);
        lemma_segments_well_formed(s, anchor, segment_end(s, cursor + 1));
    }
}

/// The parts of a pattern are well formed: no literal is empty, every
/// parameter has a name of the grammar and stands behind a literal that
/// ends in `/`, and no two literals stand side by side.
pub proof fn law_parts_are_well_formed(pattern: Seq<u8>)
    requires
        parse(pattern) is Ok,
    ensures
        well_formed(parse(pattern)->Ok_0),
{
    if pattern.len() > 1 {
        lemma_segments_well_formed(pattern, 0, 0);
    }
}

proof fn lemma_segments_without_brace(s: Seq<u8>, anchor: int, cursor: int)
    requires
        0 <= anchor <= cursor <= s.len(),
        segments_from(s, anchor, cursor) is Ok,
        forall|k: int| 0 <= k < s.len() ==> #[trigger] s[k] != OPEN_BRACE,
    ensures
        segments_from(s, anchor, cursor)->Ok_0 == tail(s, anchor, s.len() as int),
    decreases s.len() - cursor,
{
    if cursor < s.len() {
        lemma_segment_end_bounds(s, cursor + 1);
        lemma_segments_without_brace(s, anchor, segment_end(s, cursor + 1));
    }
}

/// A pattern without a parameter, other than the root path, compiles to one
/// literal, which is the pattern byte for byte: a percent-encoded triple in
/// it stays as it was written.
pub proof fn law_plain_pattern_is_one_literal(pattern: Seq<u8>)
    requires
        parse(pattern) is Ok,
        pattern.len() > 1,
        forall|k: int| 0 <= k < pattern.len() ==> #[trigger] pattern[k] != OPEN_BRACE,
    ensures
        parse(pattern)->Ok_0 == seq![PartView::Literal(pattern)],
{
    lemma_segments_without_brace(pattern, 0, 0);
    assert(pattern.subrange(0, pattern.len() as int) =~= pattern);
}

} // verus!
