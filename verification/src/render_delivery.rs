//! The renders of a turn in its reply.
//!
//! A model that names the file behind an `[IMAGE:..]` marker names it wrong most
//! of the time. The job receipts know which renders a session produced and where
//! they are, so a reply is rewritten from them at the end of its turn: the
//! model's image markers go, and the verified ones stand first, one on each line.
//! Without a render the model is still not trusted blindly: a marker stays only
//! where its path is a regular file.
use vstd::prelude::*;
use vstd::string::*;

use crate::path;
use crate::session_jobs;
use crate::session_jobs::Deliverable;
use crate::text;

verus! {

/// One `[IMAGE:payload]` span of a text: where it starts and where it has ended,
/// counted in characters, and its payload.
#[derive(Debug)]
pub struct Marker {
    pub start: usize,
    pub end: usize,
    pub payload: String,
}

/// What a [`Marker`] says.
pub struct Span {
    pub start: int,
    pub end: int,
    pub payload: Seq<char>,
}

impl Marker {
    pub open spec fn view(&self) -> Span {
        Span { start: self.start as int, end: self.end as int, payload: self.payload@ }
    }
}

/// What some markers say.
pub open spec fn spans_of(markers: Seq<Marker>) -> Seq<Span> {
    markers.map_values(|m: Marker| m.view())
}

/// A payload that names a file or resource, as opposed to prose about the
/// marker syntax itself.
pub open spec fn names_image(payload: Seq<char>) -> bool {
    let low = text::lowered(payload);
    &&& payload.len() > 0
    &&& {
        ||| payload[0] == '/'
        ||| payload[0] == '~'
        ||| text::starts_with(low, "data:"@)
        ||| text::starts_with(low, "comfy-job:"@)
        ||| text::contains(low, "://"@)
        ||| text::ends_with(low, ".png"@)
        ||| text::ends_with(low, ".jpg"@)
        ||| text::ends_with(low, ".jpeg"@)
        ||| text::ends_with(low, ".webp"@)
        ||| text::ends_with(low, ".gif"@)
        ||| text::ends_with(low, ".bmp"@)
    }
}

/// The image markers of a text from place `from` on: each opener `[IMAGE:`, in
/// any case, reaches to the next `]`, and counts if what stands between names
/// an image.
pub open spec fn markers_from(text: Seq<char>, from: int) -> Seq<Span>
    decreases text.len() - from,
{
    if from < 0 {
        Seq::empty()
    } else {
        match text::find(text::lowered(text), "[image:"@, from) {
            None => Seq::empty(),
            Some(start) => {
                let inner = start + "[image:"@.len();
                match text::find_char(text, ']', inner) {
                    None => Seq::empty(),
                    Some(end) => {
                        proof {
                            text::lemma_find(text::lowered(text), "[image:"@, from);
                            text::lemma_find_char(text, ']', inner);
                        }
                        let payload = text::trimmed(text.subrange(inner, end));
                        let rest = markers_from(text, end + 1);
                        if names_image(payload) {
                            seq![Span { start, end: end + 1, payload }] + rest
                        } else {
                            rest
                        }
                    },
                }
            },
        }
    }
}

/// The image markers of a text.
pub open spec fn markers(text: Seq<char>) -> Seq<Span> {
    markers_from(text, 0)
}

/// A payload that names a file or resource, as opposed to prose about the
/// marker syntax itself (`[IMAGE:...]`, `[IMAGE:<path>]`), which must stay as
/// written.
pub fn is_marker_payload(payload: &str) -> (out: bool)
    ensures
        out == names_image(payload@),
{
    let chars: Vec<char> = text::chars_of(payload);
    if chars.len() == 0 {
        return false;
    }
    let low: Vec<char> = text::lower_chars(&chars);
    chars[0] == '/' || chars[0] == '~' || text::starts_with_chars(&low, "data:") || text::starts_with_chars(
        &low,
        "comfy-job:",
    ) || text::contains_chars(&low, &text::chars_of("://")) || text::ends_with_chars(&low, ".png")
        || text::ends_with_chars(&low, ".jpg") || text::ends_with_chars(&low, ".jpeg") || text::ends_with_chars(
        &low,
        ".webp",
    ) || text::ends_with_chars(&low, ".gif") || text::ends_with_chars(&low, ".bmp")
}

/// The `[IMAGE:payload]` spans of a text, in any case, as places among its
/// characters.
pub fn image_markers(text: &str) -> (out: Vec<Marker>)
    ensures
        spans_of(out@) == markers(text@),
{
    let chars: Vec<char> = text::chars_of(text);
    let low: Vec<char> = text::lower_chars(&chars);
    let open: Vec<char> = text::chars_of("[image:");
    let size: usize = chars.len();
    let mut out: Vec<Marker> = Vec::new();
    let mut from: usize = 0;
    proof {
        assert(spans_of(out@) + markers_from(text@, 0) =~= markers_from(text@, 0));
    }
    loop
        invariant
            chars@ == text@,
            low@ == text::lowered(text@),
            low@.len() == text@.len(),
            open@ == "[image:"@,
            from <= text@.len() == size,
            spans_of(out@) + markers_from(text@, from as int) == markers(text@),
        ensures
            spans_of(out@) == markers(text@),
        decreases text@.len() - from,
    {
        let ghost before = out@;
        proof {
            text::lemma_find(low@, open@, from as int);
            assert(spans_of(out@) + Seq::<Span>::empty() =~= spans_of(out@));
        }
        let start: usize = match text::find_in(&low, &open, from) {
            Some(start) => start,
            None => {
                break;
            },
        };
        let inner: usize = start + open.len();
        proof {
            text::lemma_find_char(text@, ']', inner as int);
        }
        let end: usize = match text::find_char_in(&chars, ']', inner) {
            Some(end) => end,
            None => {
                break;
            },
        };
        let (a, b) = text::trim_range(&chars, inner, end);
        let payload: String = text::text_of(&chars, a, b);
        if is_marker_payload(payload.as_str()) {
            out.push(Marker { start, end: end + 1, payload });
            proof {
                assert(spans_of(out@) =~= spans_of(before).push(out@.last().view()));
                assert(spans_of(out@) + markers_from(text@, end + 1) =~= spans_of(before)
                    + markers_from(text@, from as int));
            }
        }
        from = end + 1;
    }
    out
}


/// A path that a client can be served: from the root, never stepping up, and
/// among the regular files.
pub open spec fn servable(path: Seq<char>, files: Seq<Seq<char>>) -> bool {
    path::is_clean_absolute(path) && files.contains(path)
}

/// Whether a marker stays: never when the turn has renders of its own.
pub open spec fn keeps(
    span: Span,
    authoritative: Seq<Seq<char>>,
    files: Seq<Seq<char>>,
) -> bool {
    authoritative.len() == 0 && servable(span.payload, files)
}

pub open spec fn kept_spans(
    text: Seq<char>,
    authoritative: Seq<Seq<char>>,
    files: Seq<Seq<char>>,
) -> Seq<Span> {
    markers(text).filter(|m: Span| keeps(m, authoritative, files))
}

pub open spec fn dropped_spans(
    text: Seq<char>,
    authoritative: Seq<Seq<char>>,
    files: Seq<Seq<char>>,
) -> Seq<Span> {
    markers(text).filter(|m: Span| !keeps(m, authoritative, files))
}

pub open spec fn payloads(spans: Seq<Span>) -> Seq<Seq<char>> {
    spans.map_values(|m: Span| m.payload)
}

/// Where the last of some spans has ended.
pub open spec fn end_of(spans: Seq<Span>) -> int {
    if spans.len() == 0 {
        0
    } else {
        spans.last().end
    }
}

/// What stands before the last of some spans, without the spans before it.
pub open spec fn before_last(text: Seq<char>, spans: Seq<Span>) -> Seq<char>
    decreases spans.len(),
{
    if spans.len() == 0 {
        Seq::empty()
    } else {
        before_last(text, spans.drop_last()) + text.subrange(
            end_of(spans.drop_last()),
            spans.last().start,
        )
    }
}

/// A text without some of its spans.
pub open spec fn outside(text: Seq<char>, spans: Seq<Span>) -> Seq<char> {
    before_last(text, spans) + text.skip(end_of(spans))
}

/// Lines without the blank ones that follow a blank one.
pub open spec fn squeezed(lines: Seq<Seq<char>>) -> Seq<Seq<char>>
    decreases lines.len(),
{
    if lines.len() == 0 {
        Seq::empty()
    } else {
        let rest = squeezed(lines.drop_last());
        if text::is_blank(lines.last()) && lines.len() > 1 && text::is_blank(
            lines[lines.len() - 2],
        ) {
            rest
        } else {
            rest.push(lines.last())
        }
    }
}

/// The text of some lines, each with its line feed.
pub open spec fn ended(lines: Seq<Seq<char>>) -> Seq<char>
    decreases lines.len(),
{
    if lines.len() == 0 {
        Seq::empty()
    } else {
        ended(lines.drop_last()) + lines.last().push('\n')
    }
}

/// A text without the line feeds in front.
pub open spec fn unfed_start(s: Seq<char>) -> Seq<char>
    decreases s.len(),
{
    if s.len() > 0 && s.first() == '\n' {
        unfed_start(s.drop_first())
    } else {
        s
    }
}

/// A text without the line feeds behind.
pub open spec fn unfed_end(s: Seq<char>) -> Seq<char>
    decreases s.len(),
{
    if s.len() > 0 && s.last() == '\n' {
        unfed_end(s.drop_last())
    } else {
        s
    }
}

/// Where spans stood, as places in the text without them.
pub open spec fn cut_places(text: Seq<char>, spans: Seq<Span>) -> Seq<int> {
    Seq::new(spans.len(), |i: int| before_last(text, spans.take(i + 1)).len() as int)
}

/// Whether one of some places lies between two others, either included.
pub open spec fn is_cut(cuts: Seq<int>, from: int, to: int) -> bool {
    exists|k: int| 0 <= k < cuts.len() && from <= #[trigger] cuts[k] <= to
}

/// The line from one place of a text to another. A carriage return is part of its
/// ending only in front of a line feed.
pub open spec fn line_at(s: Seq<char>, from: int, to: int) -> Seq<char> {
    if to < s.len() {
        text::without_return(s.subrange(from, to))
    } else {
        s.subrange(from, to)
    }
}

/// The line from one place of a text to another, unless something was cut out of
/// it and nothing is left.
pub open spec fn line_left(s: Seq<char>, cuts: Seq<int>, from: int, to: int) -> Seq<Seq<char>> {
    let line = line_at(s, from, to);
    if text::is_blank(line) && is_cut(cuts, from, to) {
        Seq::empty()
    } else {
        seq![line]
    }
}

/// The lines of a text from a place on, without those of which cutting has left
/// nothing.
pub open spec fn lines_left(s: Seq<char>, cuts: Seq<int>, from: int) -> Seq<Seq<char>>
    decreases s.len() - from,
{
    if from < 0 || from >= s.len() {
        Seq::empty()
    } else {
        match text::find_char(s, '\n', from) {
            None => line_left(s, cuts, from, s.len() as int),
            Some(end) => {
                proof {
                    text::lemma_find_char(s, '\n', from);
                }
                line_left(s, cuts, from, end) + lines_left(s, cuts, end + 1)
            },
        }
    }
}

/// A text after markers were taken out at some places: a line that held nothing
/// else does not stay behind, no run of blank lines is longer than one, and no
/// line feeds stand around it.
pub open spec fn tidied(s: Seq<char>, cuts: Seq<int>) -> Seq<char> {
    unfed_end(unfed_start(ended(squeezed(lines_left(s, cuts, 0)))))
}

/// The paths to add: each once, in order, and none that was kept.
pub open spec fn additions(
    authoritative: Seq<Seq<char>>,
    kept: Seq<Seq<char>>,
) -> Seq<Seq<char>>
    decreases authoritative.len(),
{
    if authoritative.len() == 0 {
        Seq::empty()
    } else {
        let rest = additions(authoritative.drop_last(), kept);
        let path = authoritative.last();
        if rest.contains(path) || kept.contains(path) {
            rest
        } else {
            rest.push(path)
        }
    }
}

/// The marker for a path.
pub open spec fn marker_for(path: Seq<char>) -> Seq<char> {
    "[IMAGE:"@ + path + "]"@
}

/// The markers for some paths, one per line.
pub open spec fn marker_lines(paths: Seq<Seq<char>>) -> Seq<char> {
    text::joined(paths.map_values(|p: Seq<char>| marker_for(p)), "\n"@)
}

/// A reply's body under its added markers.
pub open spec fn under_markers(added: Seq<Seq<char>>, body: Seq<char>) -> Seq<char> {
    if added.len() == 0 {
        body
    } else if text::is_blank(body) {
        marker_lines(added)
    } else {
        marker_lines(added) + "\n\n"@ + body
    }
}

/// What a rewrite did.
pub struct Rewritten {
    pub text: Seq<char>,
    pub added: Seq<Seq<char>>,
    pub kept: Seq<Seq<char>>,
    pub dropped: Seq<Seq<char>>,
}

/// A reply without the markers that are not to be trusted.
pub open spec fn body_of(
    text: Seq<char>,
    authoritative: Seq<Seq<char>>,
    files: Seq<Seq<char>>,
) -> Seq<char> {
    let dropped = dropped_spans(text, authoritative, files);
    if dropped.len() == 0 {
        text
    } else {
        tidied(outside(text, dropped), cut_places(text, dropped))
    }
}

/// The rewrite of one reply.
pub open spec fn rewritten(
    text: Seq<char>,
    authoritative: Seq<Seq<char>>,
    prepend: bool,
    files: Seq<Seq<char>>,
) -> Rewritten {
    let kept = payloads(kept_spans(text, authoritative, files));
    let added = if prepend {
        additions(authoritative, kept)
    } else {
        Seq::empty()
    };
    Rewritten {
        text: under_markers(added, body_of(text, authoritative, files)),
        added,
        kept,
        dropped: payloads(dropped_spans(text, authoritative, files)),
    }
}

/// What a rewrite did, for the log line.
#[derive(Debug, Default, PartialEq, Eq)]
pub struct Rewrite {
    pub text: String,
    pub added: Vec<String>,
    pub kept: Vec<String>,
    pub dropped: Vec<String>,
}

impl Rewrite {
    pub open spec fn view(&self) -> Rewritten {
        Rewritten {
            text: self.text@,
            added: text::views(self.added@),
            kept: text::views(self.kept@),
            dropped: text::views(self.dropped@),
        }
    }
}


/// Markers lie in the text, one behind the other.
pub open spec fn in_order(spans: Seq<Span>, from: int, size: int) -> bool {
    &&& forall|i: int|
        0 <= i < spans.len() ==> from <= (#[trigger] spans[i]).start < spans[i].end <= size
    &&& forall|i: int, j: int|
        0 <= i < j < spans.len() ==> (#[trigger] spans[i]).end <= (#[trigger] spans[j]).start
}

/// The markers of a text lie in it, one behind the other.
pub proof fn lemma_markers_in_order(text: Seq<char>, from: int)
    requires
        0 <= from,
    ensures
        in_order(markers_from(text, from), from, text.len() as int),
    decreases text.len() - from,
{
    reveal_strlit("[image:");
    text::lemma_find(text::lowered(text), "[image:"@, from);
    if let Some(start) = text::find(text::lowered(text), "[image:"@, from) {
        let inner = start + "[image:"@.len();
        text::lemma_find_char(text, ']', inner);
        if let Some(end) = text::find_char(text, ']', inner) {
            lemma_markers_in_order(text, end + 1);
            let rest = markers_from(text, end + 1);
            let all = markers_from(text, from);
            assert forall|i: int, j: int| 0 <= i < j < all.len() implies (
            #[trigger] all[i]).end <= (#[trigger] all[j]).start by {
                if all.len() != rest.len() {
                    assert(all[j] == rest[j - 1]);
                    if i > 0 {
                        assert(all[i] == rest[i - 1]);
                    }
                }
            }
            assert forall|i: int| 0 <= i < all.len() implies from <= (
            #[trigger] all[i]).start < all[i].end <= text.len() by {
                if all.len() != rest.len() && i > 0 {
                    assert(all[i] == rest[i - 1]);
                }
            }
        }
    }
}

proof fn lemma_filter_step(spans: Seq<Span>, i: int, pred: spec_fn(Span) -> bool)
    requires
        0 <= i < spans.len(),
    ensures
        spans.take(i + 1).filter(pred) == (if pred(spans[i]) {
            spans.take(i).filter(pred).push(spans[i])
        } else {
            spans.take(i).filter(pred)
        }),
{
    reveal(Seq::filter);
    assert(spans.take(i + 1).drop_last() =~= spans.take(i));
}

/// A path that a client can be served: from the root, never stepping up, and
/// among the regular files.
pub fn is_servable_file(path: &str, files: &Vec<String>) -> (out: bool)
    ensures
        out == servable(path@, text::views(files@)),
{
    path::clean_absolute(path) && text::any_same(files, path)
}

proof fn lemma_unfed_start(s: Seq<char>, k: int)
    requires
        0 <= k <= s.len(),
        forall|i: int| 0 <= i < k ==> #[trigger] s[i] == '\n',
    ensures
        unfed_start(s) == unfed_start(s.skip(k)),
    decreases k,
{
    if k > 0 {
        let rest = s.drop_first();
        assert forall|i: int| 0 <= i < k - 1 implies #[trigger] rest[i] == '\n' by {
            assert(rest[i] == s[i + 1]);
        }
        lemma_unfed_start(rest, k - 1);
        assert(rest.skip(k - 1) =~= s.skip(k));
    } else {
        assert(s.skip(0) =~= s);
    }
}

proof fn lemma_unfed_end(s: Seq<char>, k: int)
    requires
        0 <= k <= s.len(),
        forall|i: int| k <= i < s.len() ==> #[trigger] s[i] == '\n',
    ensures
        unfed_end(s) == unfed_end(s.take(k)),
    decreases s.len() - k,
{
    if k < s.len() {
        let rest = s.drop_last();
        lemma_unfed_end(rest, k);
        assert(rest.take(k) =~= s.take(k));
    } else {
        assert(s.take(k) =~= s);
    }
}

/// The text without the line feeds around it.
fn trim_feeds(s: &str) -> (out: String)
    ensures
        out@ == unfed_end(unfed_start(s@)),
{
    let chars: Vec<char> = text::chars_of(s);
    let mut a: usize = 0;
    while a < chars.len() && chars[a] == '\n'
        invariant
            a <= chars@.len(),
            forall|i: int| 0 <= i < a ==> #[trigger] chars@[i] == '\n',
        decreases chars@.len() - a,
    {
        a += 1;
    }
    let ghost front = chars@.skip(a as int);
    proof {
        lemma_unfed_start(chars@, a as int);
        assert(unfed_start(front) == front);
    }
    let mut b: usize = chars.len();
    while a < b && chars[b - 1] == '\n'
        invariant
            a <= b <= chars@.len(),
            front == chars@.skip(a as int),
            forall|i: int| b - a <= i < front.len() ==> #[trigger] front[i] == '\n',
        decreases b,
    {
        proof {
            assert(front[b - 1 - a] == chars@[b - 1]);
        }
        b -= 1;
    }
    proof {
        lemma_unfed_end(front, b - a);
        let middle = chars@.subrange(a as int, b as int);
        assert(front.take(b - a) =~= middle);
        assert(unfed_end(middle) == middle);
    }
    text::text_of(&chars, a, b)
}

/// Whether there is nothing but white space in a text.
fn blank(s: &str) -> (out: bool)
    ensures
        out == text::is_blank(s@),
{
    let chars: Vec<char> = text::chars_of(s);
    proof {
        assert(chars@.subrange(0, chars@.len() as int) =~= s@);
    }
    text::blank_range(&chars, 0, chars.len())
}

/// Some places, as numbers.
spec fn places(cuts: Seq<usize>) -> Seq<int> {
    cuts.map_values(|c: usize| c as int)
}

fn any_cut(cuts: &Vec<usize>, from: usize, to: usize) -> (out: bool)
    ensures
        out == is_cut(places(cuts@), from as int, to as int),
{
    let ghost all = places(cuts@);
    let mut i: usize = 0;
    while i < cuts.len()
        invariant
            i <= cuts@.len(),
            all == places(cuts@),
            forall|k: int| 0 <= k < i ==> !(from <= #[trigger] all[k] <= to),
        decreases cuts@.len() - i,
    {
        proof {
            assert(all[i as int] == cuts@[i as int]);
        }
        if from <= cuts[i] && cuts[i] <= to {
            return true;
        }
        i += 1;
    }
    false
}

/// Adds the line from one place to another, unless something was cut out of it
/// and nothing is left.
fn push_line_left(
    out: &mut Vec<String>,
    chars: &Vec<char>,
    cuts: &Vec<usize>,
    from: usize,
    to: usize,
)
    requires
        from <= to <= chars@.len(),
    ensures
        text::views(final(out)@) == text::views(old(out)@) + line_left(
            chars@,
            places(cuts@),
            from as int,
            to as int,
        ),
{
    let ghost before = out@;
    let ghost line = chars@.subrange(from as int, to as int);
    let stop: usize = if to < chars.len() && from < to && chars[to - 1] == '\r' {
        to - 1
    } else {
        to
    };
    proof {
        assert(line.len() > 0 ==> line.last() == chars@[to - 1]);
        assert(chars@.subrange(from as int, stop as int) =~= line_at(
            chars@,
            from as int,
            to as int,
        ));
    }
    if text::blank_range(chars, from, stop) && any_cut(cuts, from, to) {
        proof {
            assert(text::views(before) + Seq::<Seq<char>>::empty() =~= text::views(before));
        }
    } else {
        let row: String = text::text_of(chars, from, stop);
        out.push(row);
        proof {
            assert(text::views(out@) =~= text::views(before) + seq![row@]);
        }
    }
}

/// The lines of a text without those of which cutting has left nothing.
fn rows_left(chars: &Vec<char>, cuts: &Vec<usize>) -> (out: Vec<String>)
    ensures
        text::views(out@) == lines_left(chars@, places(cuts@), 0),
{
    let ghost marks = places(cuts@);
    let ghost all = lines_left(chars@, marks, 0);
    let mut out: Vec<String> = Vec::new();
    let mut at: usize = 0;
    proof {
        assert(text::views(out@) + all =~= all);
    }
    while at < chars.len()
        invariant
            at <= chars@.len(),
            marks == places(cuts@),
            text::views(out@) + lines_left(chars@, marks, at as int) == all,
        decreases chars@.len() - at,
    {
        let ghost before = text::views(out@);
        proof {
            text::lemma_find_char(chars@, '\n', at as int);
        }
        match text::find_char_in(chars, '\n', at) {
            Some(end) => {
                push_line_left(&mut out, chars, cuts, at, end);
                proof {
                    let rest = lines_left(chars@, marks, end + 1);
                    assert(text::views(out@) + rest =~= before + lines_left(
                        chars@,
                        marks,
                        at as int,
                    ));
                }
                at = end + 1;
            },
            None => {
                push_line_left(&mut out, chars, cuts, at, chars.len());
                proof {
                    assert(text::views(out@) + Seq::<Seq<char>>::empty() =~= text::views(out@));
                }
                at = chars.len();
            },
        }
    }
    proof {
        assert(text::views(out@) + Seq::<Seq<char>>::empty() =~= text::views(out@));
    }
    out
}

/// The text after markers were taken out at some places: a removed marker
/// usually owned its whole line, and that line does not stay behind.
fn tidy(body: &str, cuts: &Vec<usize>) -> (out: String)
    ensures
        out@ == tidied(body@, places(cuts@)),
{
    let rows: Vec<String> = rows_left(&text::chars_of(body), cuts);
    let ghost all = lines_left(body@, places(cuts@), 0);
    let mut cleaned: String = String::new();
    let mut after_blank: bool = false;
    let mut i: usize = 0;
    proof {
        assert(all.take(0) =~= Seq::empty());
    }
    while i < rows.len()
        invariant
            i <= rows@.len(),
            text::views(rows@) == all,
            after_blank == (i > 0 && text::is_blank(all[i - 1])),
            cleaned@ == ended(squeezed(all.take(i as int))),
        decreases rows@.len() - i,
    {
        let ghost shown = all.take(i + 1);
        proof {
            assert(shown.drop_last() =~= all.take(i as int));
            assert(shown.last() == all[i as int]);
            assert(i > 0 ==> shown[shown.len() - 2] == all[i - 1]);
        }
        let is_blank: bool = blank(rows[i].as_str());
        if !(is_blank && after_blank) {
            cleaned.append(rows[i].as_str());
            cleaned.push('\n');
            proof {
                let done = squeezed(all.take(i as int));
                assert(squeezed(shown) == done.push(all[i as int]));
                assert(done.push(all[i as int]).drop_last() =~= done);
                assert(cleaned@ =~= ended(done) + all[i as int].push('\n'));
            }
        }
        after_blank = is_blank;
        i += 1;
    }
    proof {
        assert(all.take(i as int) =~= all);
    }
    trim_feeds(cleaned.as_str())
}

/// The paths to add.
fn select_additions(authoritative: &Vec<String>, kept: &Vec<String>) -> (out: Vec<String>)
    ensures
        text::views(out@) == additions(text::views(authoritative@), text::views(kept@)),
{
    let ghost all = text::views(authoritative@);
    let ghost old = text::views(kept@);
    let mut out: Vec<String> = Vec::new();
    let mut i: usize = 0;
    proof {
        assert(all.take(0) =~= Seq::empty());
        assert(text::views(out@) =~= additions(all.take(0), old));
    }
    while i < authoritative.len()
        invariant
            i <= authoritative@.len(),
            all == text::views(authoritative@),
            old == text::views(kept@),
            text::views(out@) == additions(all.take(i as int), old),
        decreases authoritative@.len() - i,
    {
        let ghost before = out@;
        proof {
            assert(all.take(i + 1).drop_last() =~= all.take(i as int));
            assert(all.take(i + 1).last() == authoritative@[i as int]@);
        }
        if !text::any_same(&out, authoritative[i].as_str()) && !text::any_same(
            kept,
            authoritative[i].as_str(),
        ) {
            out.push(authoritative[i].clone());
            proof {
                assert(text::views(out@) =~= text::views(before).push(authoritative@[i as int]@));
            }
        }
        i += 1;
    }
    proof {
        assert(all.take(i as int) =~= all);
    }
    out
}

/// The markers for some paths, one per line.
fn head_lines(added: &Vec<String>) -> (out: String)
    ensures
        out@ == marker_lines(text::views(added@)),
{
    let ghost all = text::views(added@).map_values(|p: Seq<char>| marker_for(p));
    let mut out: String = String::new();
    let mut i: usize = 0;
    proof {
        assert(all.take(0) =~= Seq::empty());
    }
    while i < added.len()
        invariant
            i <= added@.len(),
            all == text::views(added@).map_values(|p: Seq<char>| marker_for(p)),
            out@ == text::joined(all.take(i as int), "\n"@),
        decreases added@.len() - i,
    {
        proof {
            assert(all.take(i + 1).drop_last() =~= all.take(i as int));
            assert(all.take(i + 1).last() == marker_for(added@[i as int]@));
        }
        let ghost before = out@;
        if i > 0 {
            out.append("\n");
        }
        out.append("[IMAGE:");
        out.append(added[i].as_str());
        out.append("]");
        proof {
            if i > 0 {
                assert(out@ =~= before + "\n"@ + marker_for(added@[i as int]@));
            } else {
                assert(out@ =~= marker_for(added@[i as int]@));
            }
        }
        i += 1;
    }
    proof {
        assert(all.take(i as int) =~= all);
    }
    out
}

/// Rewrites one reply. `authoritative` are the verified render files of this
/// turn, in order; when there are any, the model's own image markers are
/// discarded wholesale, otherwise only the ones that could never be served are.
/// `files` are the paths that are regular files now.
pub fn rewrite(text: &str, authoritative: &Vec<String>, files: &Vec<String>) -> (out: Rewrite)
    ensures
        out@ == rewritten(text@, text::views(authoritative@), true, text::views(files@)),
{
    rewrite_with(text, authoritative, true, files)
}

/// [`rewrite`], where `prepend` false applies the same distrust but adds
/// nothing: for an assistant message that is not the turn's final one, so that a
/// backfill shows each render once.
pub fn rewrite_with(
    text: &str,
    authoritative: &Vec<String>,
    prepend: bool,
    files: &Vec<String>,
) -> (out: Rewrite)
    ensures
        out@ == rewritten(text@, text::views(authoritative@), prepend, text::views(files@)),
{
    let ghost auth = text::views(authoritative@);
    let ghost on_disk = text::views(files@);
    let ghost keep = |m: Span| keeps(m, auth, on_disk);
    let ghost drop = |m: Span| !keeps(m, auth, on_disk);
    let distrust: bool = authoritative.len() > 0;
    let chars: Vec<char> = text::chars_of(text);
    let found: Vec<Marker> = image_markers(text);
    let ghost spans = markers(text@);
    let mut kept: Vec<String> = Vec::new();
    let mut dropped: Vec<String> = Vec::new();
    let mut body: String = String::new();
    let mut cuts: Vec<usize> = Vec::new();
    let mut written: usize = 0;
    let mut cursor: usize = 0;
    let mut i: usize = 0;
    proof {
        lemma_markers_in_order(text@, 0);
        reveal(Seq::filter);
        assert(spans.take(0) =~= Seq::empty());
        assert(text::views(kept@) =~= payloads(spans.take(0).filter(keep)));
        assert(text::views(dropped@) =~= payloads(spans.take(0).filter(drop)));
        assert(places(cuts@) =~= cut_places(text@, spans.take(0).filter(drop)));
    }
    while i < found.len()
        invariant
            i <= found@.len(),
            spans == markers(text@),
            spans_of(found@) == spans,
            in_order(spans, 0, text@.len() as int),
            chars@ == text@,
            auth == text::views(authoritative@),
            on_disk == text::views(files@),
            distrust == (auth.len() > 0),
            keep == (|m: Span| keeps(m, auth, on_disk)),
            drop == (|m: Span| !keeps(m, auth, on_disk)),
            text::views(kept@) == payloads(spans.take(i as int).filter(keep)),
            text::views(dropped@) == payloads(spans.take(i as int).filter(drop)),
            body@ == before_last(text@, spans.take(i as int).filter(drop)),
            places(cuts@) == cut_places(text@, spans.take(i as int).filter(drop)),
            written == body@.len(),
            written <= cursor,
            cursor == end_of(spans.take(i as int).filter(drop)),
            cursor <= (if i == 0 {
                0
            } else {
                spans[i - 1].end
            }),
        decreases found@.len() - i,
    {
        let marker: &Marker = &found[i];
        let ghost was_kept = kept@;
        let ghost was_dropped = dropped@;
        let ghost was_cuts = cuts@;
        let ghost done = spans.take(i as int).filter(drop);
        proof {
            assert(spans[i as int] == marker.view());
            lemma_filter_step(spans, i as int, keep);
            lemma_filter_step(spans, i as int, drop);
            assert(i > 0 ==> spans[i - 1].end <= spans[i as int].start);
        }
        if !distrust && is_servable_file(marker.payload.as_str(), files) {
            kept.push(marker.payload.clone());
            proof {
                assert(keep(spans[i as int]));
                assert(text::views(kept@) =~= text::views(was_kept).push(marker.payload@));
                assert(payloads(spans.take(i + 1).filter(keep)) =~= payloads(
                    spans.take(i as int).filter(keep),
                ).push(marker.payload@));
            }
        } else {
            dropped.push(marker.payload.clone());
            let piece: String = text::text_of(&chars, cursor, marker.start);
            body.append(piece.as_str());
            written += marker.start - cursor;
            cuts.push(written);
            cursor = marker.end;
            proof {
                assert(drop(spans[i as int]));
                assert(text::views(dropped@) =~= text::views(was_dropped).push(marker.payload@));
                assert(payloads(spans.take(i + 1).filter(drop)) =~= payloads(done).push(
                    marker.payload@,
                ));
                let more = done.push(spans[i as int]);
                assert(more.drop_last() =~= done);
                assert(more.take(more.len() as int) =~= more);
                assert forall|j: int| 0 <= j < done.len() implies #[trigger] cut_places(
                    text@,
                    more,
                )[j] == cut_places(text@, done)[j] by {
                    assert(more.take(j + 1) =~= done.take(j + 1));
                }
                assert(places(cuts@) =~= places(was_cuts).push(written as int));
                assert(places(cuts@) =~= cut_places(text@, more));
            }
        }
        i += 1;
    }
    proof {
        assert(spans.take(i as int) =~= spans);
        assert(spans.filter(keep) == kept_spans(text@, auth, on_disk));
        assert(spans.filter(drop) == dropped_spans(text@, auth, on_disk));
    }
    let rest: String = text::text_of(&chars, cursor, chars.len());
    body.append(rest.as_str());
    proof {
        assert(body@ =~= outside(text@, dropped_spans(text@, auth, on_disk)));
        if dropped@.len() == 0 {
            assert(dropped_spans(text@, auth, on_disk).len() == 0) by {
                assert(text::views(dropped@).len() == dropped@.len());
            }
            assert(body@ =~= text@);
        } else {
            assert(text::views(dropped@).len() == dropped@.len());
        }
    }
    let body: String = if dropped.len() == 0 {
        body
    } else {
        tidy(body.as_str(), &cuts)
    };
    let added: Vec<String> = if prepend {
        select_additions(authoritative, &kept)
    } else {
        let none: Vec<String> = Vec::new();
        proof {
            assert(text::views(none@) =~= Seq::empty());
        }
        none
    };
    proof {
        assert(text::views(added@).len() == added@.len());
    }
    let text: String = if added.len() == 0 {
        body
    } else {
        let head: String = head_lines(&added);
        if blank(body.as_str()) {
            head
        } else {
            text::concat3(head.as_str(), "\n\n", body.as_str())
        }
    };
    Rewrite { text, added, kept, dropped }
}


/// One chat message.
#[derive(Debug)]
pub struct ChatMessage {
    pub role: String,
    pub content: String,
}

/// The output of one tool call.
#[derive(Debug)]
pub struct ToolResultMessage {
    pub tool_call_id: String,
    pub content: String,
    pub tool_name: String,
}

/// One message of a turn.
#[derive(Debug)]
pub enum ConversationMessage {
    Chat(ChatMessage),
    ToolResults(Vec<ToolResultMessage>),
    /// A message that carries neither chat nor tool output.
    Other,
}

/// What a message says, as far as renders are concerned.
pub enum MessageView {
    Chat { role: Seq<char>, content: Seq<char> },
    ToolResults(Seq<Seq<char>>),
    Other,
}

impl ConversationMessage {
    pub open spec fn view(&self) -> MessageView {
        match self {
            ConversationMessage::Chat(chat) => MessageView::Chat {
                role: chat.role@,
                content: chat.content@,
            },
            ConversationMessage::ToolResults(results) => MessageView::ToolResults(
                results@.map_values(|r: ToolResultMessage| r.content@),
            ),
            ConversationMessage::Other => MessageView::Other,
        }
    }
}

/// What some messages say.
pub open spec fn message_views(messages: Seq<ConversationMessage>) -> Seq<MessageView> {
    messages.map_values(|m: ConversationMessage| m.view())
}

/// Whether a text claims an image or reports a render.
pub open spec fn mentions_render(s: Seq<char>) -> bool {
    text::contains(text::lowered(s), "[image:"@) || text::contains(
        text::lowered(s),
        "render: prompt_id="@,
    )
}

/// Whether one of a message's tool outputs does.
pub open spec fn tool_mentions_render(message: MessageView) -> bool {
    match message {
        MessageView::ToolResults(outputs) => exists|i: int|
            0 <= i < outputs.len() && mentions_render(#[trigger] outputs[i]),
        _ => false,
    }
}

/// Whether a turn plausibly produced or claimed an image.
pub open spec fn wants_reconcile(response: Seq<char>, messages: Seq<MessageView>) -> bool {
    mentions_render(response) || exists|i: int|
        0 <= i < messages.len() && tool_mentions_render(#[trigger] messages[i])
}

fn text_mentions_render(s: &str) -> (out: bool)
    ensures
        out == mentions_render(s@),
{
    let low: Vec<char> = text::lower_chars(&text::chars_of(s));
    text::contains_chars(&low, &text::chars_of("[image:")) || text::contains_chars(
        &low,
        &text::chars_of("render: prompt_id="),
    )
}

fn message_mentions_render(message: &ConversationMessage) -> (out: bool)
    ensures
        out == tool_mentions_render(message@),
{
    match message {
        ConversationMessage::ToolResults(results) => {
            let ghost outputs = results@.map_values(|r: ToolResultMessage| r.content@);
            let mut i: usize = 0;
            while i < results.len()
                invariant
                    i <= results@.len(),
                    outputs == results@.map_values(|r: ToolResultMessage| r.content@),
                    message@ == MessageView::ToolResults(outputs),
                    forall|j: int| 0 <= j < i ==> !mentions_render(#[trigger] outputs[j]),
                decreases results@.len() - i,
            {
                proof {
                    assert(outputs[i as int] == results@[i as int].content@);
                }
                if text_mentions_render(results[i].content.as_str()) {
                    proof {
                        assert(mentions_render(message@->ToolResults_0[i as int]));
                    }
                    return true;
                }
                i += 1;
            }
            false
        },
        _ => false,
    }
}

/// Whether a turn plausibly produced or claimed an image: only such a turn is
/// worth a receipt lookup.
pub fn needs_reconcile(response: &str, new_messages: &Vec<ConversationMessage>) -> (out: bool)
    ensures
        out == wants_reconcile(response@, message_views(new_messages@)),
{
    if text_mentions_render(response) {
        return true;
    }
    let ghost all = message_views(new_messages@);
    let mut i: usize = 0;
    while i < new_messages.len()
        invariant
            i <= new_messages@.len(),
            all == message_views(new_messages@),
            forall|j: int| 0 <= j < i ==> !tool_mentions_render(#[trigger] all[j]),
        decreases new_messages@.len() - i,
    {
        proof {
            assert(all[i as int] == new_messages@[i as int]@);
        }
        if message_mentions_render(&new_messages[i]) {
            return true;
        }
        i += 1;
    }
    false
}

/// The moment from which receipts are looked up, for a turn that began at
/// `turn_started_unix`.
pub fn lookup_since(turn_started_unix: u64) -> (out: u64)
    ensures
        out == (if turn_started_unix == 0 {
            0
        } else {
            turn_started_unix - 1
        }),
{
    turn_started_unix.saturating_sub(1)
}

/// The moment from which the receipts of a turn are to be looked up; `None` where
/// none are, and the turn stays as it is: with receipts switched off, or a turn
/// that speaks of no image.
pub fn lookup_wanted(
    enabled: bool,
    response: &str,
    new_messages: &Vec<ConversationMessage>,
    turn_started_unix: u64,
) -> (out: Option<u64>)
    ensures
        out == (if enabled && wants_reconcile(response@, message_views(new_messages@)) {
            Some(
                if turn_started_unix == 0 {
                    0u64
                } else {
                    (turn_started_unix - 1) as u64
                },
            )
        } else {
            None
        }),
{
    if enabled && needs_reconcile(response, new_messages) {
        Some(lookup_since(turn_started_unix))
    } else {
        None
    }
}

/// The paths of the images among some deliverables, in order.
pub open spec fn image_paths(list: Seq<session_jobs::DeliverableView>) -> Seq<Seq<char>>
    decreases list.len(),
{
    if list.len() == 0 {
        Seq::empty()
    } else {
        let rest = image_paths(list.drop_last());
        if list.last().kind == "image"@ {
            rest.push(list.last().path)
        } else {
            rest
        }
    }
}

/// The verified files of a turn, given what the lookup came to: where it failed
/// there are none.
pub open spec fn verified_files(
    lookup: Result<Seq<session_jobs::DeliverableView>, Seq<char>>,
) -> Seq<Seq<char>> {
    match lookup {
        Ok(list) => image_paths(list),
        Err(_) => Seq::empty(),
    }
}

/// The verified files of a turn, given what the lookup came to. A lookup failure
/// degrades to none; it never fails the turn.
pub fn authoritative_files(lookup: &Result<Vec<Deliverable>, String>) -> (out: Vec<String>)
    ensures
        text::views(out@) == verified_files(session_jobs::deliverables_view(*lookup)),
{
    let mut out: Vec<String> = Vec::new();
    proof {
        assert(text::views(out@) =~= Seq::empty());
    }
    match lookup {
        Ok(list) => {
            let ghost all = session_jobs::deliverable_views(list@);
            let mut i: usize = 0;
            proof {
                assert(all.take(0) =~= Seq::empty());
            }
            while i < list.len()
                invariant
                    i <= list@.len(),
                    all == session_jobs::deliverable_views(list@),
                    text::views(out@) == image_paths(all.take(i as int)),
                decreases list@.len() - i,
            {
                let ghost before = out@;
                proof {
                    assert(all.take(i + 1).drop_last() =~= all.take(i as int));
                    assert(all.take(i + 1).last() == list@[i as int]@);
                }
                if text::same(list[i].kind.as_str(), "image") {
                    out.push(list[i].path.clone());
                    proof {
                        assert(text::views(out@) =~= text::views(before).push(
                            list@[i as int].path@,
                        ));
                    }
                }
                i += 1;
            }
            proof {
                assert(all.take(i as int) =~= all);
            }
        },
        Err(_) => {},
    }
    out
}

/// Whether a message is the assistant's.
pub open spec fn is_assistant(message: MessageView) -> bool {
    message matches MessageView::Chat { role, .. } && role == "assistant"@
}

/// Whether the assistant's last message is in place `i`.
pub open spec fn is_last_assistant(messages: Seq<MessageView>, i: int) -> bool {
    &&& 0 <= i < messages.len()
    &&& is_assistant(messages[i])
    &&& forall|j: int| i < j < messages.len() ==> !is_assistant(#[trigger] messages[j])
}

/// A text after a rewrite: as it was where the rewrite added and dropped
/// nothing.
pub open spec fn text_after(old_text: Seq<char>, rewrite: Rewritten) -> Seq<char> {
    if rewrite.added.len() == 0 && rewrite.dropped.len() == 0 {
        old_text
    } else {
        rewrite.text
    }
}

/// A message after its turn was reconciled: the assistant's lose untrusted
/// markers, and the last of them gains the verified ones.
pub open spec fn reconciled_message(
    message: MessageView,
    last: bool,
    authoritative: Seq<Seq<char>>,
    files: Seq<Seq<char>>,
) -> MessageView {
    match message {
        MessageView::Chat { role, content } => if role == "assistant"@ {
            MessageView::Chat {
                role,
                content: text_after(content, rewritten(content, authoritative, last, files)),
            }
        } else {
            message
        },
        _ => message,
    }
}

/// The messages of a turn after it was reconciled.
pub open spec fn reconciled(
    messages: Seq<MessageView>,
    authoritative: Seq<Seq<char>>,
    files: Seq<Seq<char>>,
) -> Seq<MessageView> {
    Seq::new(
        messages.len(),
        |i: int|
            reconciled_message(
                messages[i],
                is_last_assistant(messages, i),
                authoritative,
                files,
            ),
    )
}

fn message_is_assistant(message: &ConversationMessage) -> (out: bool)
    ensures
        out == is_assistant(message@),
{
    match message {
        ConversationMessage::Chat(chat) => text::same(chat.role.as_str(), "assistant"),
        _ => false,
    }
}

fn last_assistant(messages: &Vec<ConversationMessage>) -> (out: Option<usize>)
    ensures
        match out {
            Some(i) => is_last_assistant(message_views(messages@), i as int),
            None => forall|j: int|
                0 <= j < messages@.len() ==> !is_assistant(
                    #[trigger] message_views(messages@)[j],
                ),
        },
{
    let ghost all = message_views(messages@);
    let mut i: usize = messages.len();
    while i > 0
        invariant
            i <= messages@.len(),
            all == message_views(messages@),
            forall|j: int| i <= j < messages@.len() ==> !is_assistant(#[trigger] all[j]),
        decreases i,
    {
        i -= 1;
        proof {
            assert(all[i as int] == messages@[i as int]@);
        }
        if message_is_assistant(&messages[i]) {
            return Some(i);
        }
    }
    None
}

/// Rewrites the turn's reply and its assistant messages in place from what the
/// receipt lookup came to, and says what became of the reply. `files` are the
/// paths that are regular files now.
pub fn reconcile(
    response: &mut String,
    new_messages: &mut Vec<ConversationMessage>,
    lookup: &Result<Vec<Deliverable>, String>,
    files: &Vec<String>,
) -> (out: Rewrite)
    ensures
        ({
            let authoritative = verified_files(session_jobs::deliverables_view(*lookup));
            let on_disk = text::views(files@);
            &&& out@ == rewritten(old(response)@, authoritative, true, on_disk)
            &&& final(response)@ == text_after(old(response)@, out@)
            &&& message_views(final(new_messages)@) == reconciled(
                message_views(old(new_messages)@),
                authoritative,
                on_disk,
            )
        }),
        forall|i: int|
            0 <= i < old(new_messages)@.len() && !is_assistant((#[trigger] old(new_messages)@[i])@)
                ==> final(new_messages)@[i] == old(new_messages)@[i],
{
    let authoritative: Vec<String> = authoritative_files(lookup);
    let ghost auth = text::views(authoritative@);
    let ghost on_disk = text::views(files@);
    let result: Rewrite = rewrite(response.as_str(), &authoritative, files);
    proof {
        assert(result@.added.len() == result.added@.len());
        assert(result@.dropped.len() == result.dropped@.len());
    }
    if result.added.len() > 0 || result.dropped.len() > 0 {
        *response = result.text.clone();
    }
    let ghost messages = message_views(new_messages@);
    let last: Option<usize> = last_assistant(new_messages);
    let mut i: usize = 0;
    while i < new_messages.len()
        invariant
            i <= new_messages@.len() == messages.len(),
            auth == text::views(authoritative@),
            on_disk == text::views(files@),
            match last {
                Some(k) => is_last_assistant(messages, k as int),
                None => forall|j: int|
                    0 <= j < messages.len() ==> !is_assistant(#[trigger] messages[j]),
            },
            messages == message_views(old(new_messages)@),
            forall|j: int|
                i <= j < messages.len() ==> #[trigger] new_messages@[j] == old(new_messages)@[j],
            forall|j: int|
                0 <= j < i && !is_assistant(messages[j]) ==> #[trigger] new_messages@[j] == old(
                    new_messages,
                )@[j],
            forall|j: int|
                0 <= j < i ==> (#[trigger] new_messages@[j])@ == reconciled_message(
                    messages[j],
                    is_last_assistant(messages, j),
                    auth,
                    on_disk,
                ),
        decreases new_messages@.len() - i,
    {
        proof {
            assert(new_messages@[i as int] == old(new_messages)@[i as int]);
            assert(messages[i as int] == old(new_messages)@[i as int]@);
        }
        let is_last: bool = match last {
            Some(k) => k == i,
            None => false,
        };
        let mut changed: Option<ConversationMessage> = None;
        if let ConversationMessage::Chat(chat) = &new_messages[i] {
            if text::same(chat.role.as_str(), "assistant") {
                proof {
                    assert(is_assistant(messages[i as int]));
                    assert(is_last == is_last_assistant(messages, i as int)) by {
                        if let Some(k) = last {
                            if is_last_assistant(messages, i as int) && k != i {
                                if k < i {
                                    assert(is_assistant(messages[i as int]));
                                } else {
                                    assert(is_assistant(messages[k as int]));
                                }
                            }
                        }
                    }
                }
                let r: Rewrite = rewrite_with(
                    chat.content.as_str(),
                    &authoritative,
                    is_last,
                    files,
                );
                proof {
                    assert(r@.added.len() == r.added@.len());
                    assert(r@.dropped.len() == r.dropped@.len());
                }
                if r.added.len() > 0 || r.dropped.len() > 0 {
                    changed = Some(
                        ConversationMessage::Chat(
                            ChatMessage { role: chat.role.clone(), content: r.text },
                        ),
                    );
                }
            }
        }
        if let Some(message) = changed {
            new_messages[i] = message;
        }
        i += 1;
    }
    proof {
        assert forall|j: int|
            0 <= j < messages.len() && !is_assistant(
                (#[trigger] old(new_messages)@[j])@,
            ) implies new_messages@[j] == old(new_messages)@[j] by {
            assert(messages[j] == old(new_messages)@[j]@);
        }
        assert(message_views(new_messages@) =~= reconciled(messages, auth, on_disk)) by {
            assert forall|j: int| 0 <= j < messages.len() implies #[trigger] message_views(
                new_messages@,
            )[j] == reconciled(messages, auth, on_disk)[j] by {
                assert(new_messages@[j]@ == reconciled_message(
                    messages[j],
                    is_last_assistant(messages, j),
                    auth,
                    on_disk,
                ));
            }
        }
    }
    result
}


/// A path that a marker carries as it stands: it names an image, no white space
/// stands around it, and it holds no `]`.
pub open spec fn is_plain_path(path: Seq<char>) -> bool {
    names_image(path) && text::trimmed(path) == path && !path.contains(']')
}

proof fn lemma_find_shift(a: Seq<char>, b: Seq<char>, needle: Seq<char>, k: int)
    requires
        0 <= k,
    ensures
        text::find(a + b, needle, a.len() + k) == (match text::find(b, needle, k) {
            Some(i) => Some(a.len() + i),
            None => None,
        }),
    decreases b.len() + 1 - k,
{
    if k + needle.len() <= b.len() {
        assert((a + b).subrange(a.len() + k, a.len() + k + needle.len()) =~= b.subrange(
            k,
            k + needle.len(),
        ));
        if !text::occurs_at(b, needle, k) {
            lemma_find_shift(a, b, needle, k + 1);
        }
    }
}

proof fn lemma_find_char_shift(a: Seq<char>, b: Seq<char>, c: char, k: int)
    requires
        0 <= k,
    ensures
        text::find_char(a + b, c, a.len() + k) == (match text::find_char(b, c, k) {
            Some(i) => Some(a.len() + i),
            None => None,
        }),
    decreases b.len() - k,
{
    if k < b.len() {
        assert((a + b)[a.len() + k] == b[k]);
        if b[k] != c {
            lemma_find_char_shift(a, b, c, k + 1);
        }
    }
}

/// What stands before the place where a search starts has no part in it.
proof fn lemma_markers_shift(a: Seq<char>, b: Seq<char>, k: int)
    requires
        0 <= k,
    ensures
        payloads(markers_from(a + b, a.len() + k)) == payloads(markers_from(b, k)),
    decreases b.len() - k,
{
    let open = "[image:"@;
    assert(text::lowered(a + b) =~= text::lowered(a) + text::lowered(b));
    assert(text::lowered(a).len() == a.len());
    lemma_find_shift(text::lowered(a), text::lowered(b), open, k);
    text::lemma_find(text::lowered(b), open, k);
    if let Some(start) = text::find(text::lowered(b), open, k) {
        let inner = start + open.len();
        lemma_find_char_shift(a, b, ']', inner);
        text::lemma_find_char(b, ']', inner);
        if let Some(end) = text::find_char(b, ']', inner) {
            assert((a + b).subrange(a.len() + inner, a.len() + end) =~= b.subrange(inner, end));
            lemma_markers_shift(a, b, end + 1);
            let payload = text::trimmed(b.subrange(inner, end));
            let rest = markers_from(b, end + 1);
            let moved = markers_from(a + b, a.len() + end + 1);
            if names_image(payload) {
                let here = Span { start, end: end + 1, payload };
                let there = Span {
                    start: a.len() + start,
                    end: a.len() + end + 1,
                    payload,
                };
                assert(payloads(seq![here] + rest) =~= seq![payload] + payloads(rest));
                assert(payloads(seq![there] + moved) =~= seq![payload] + payloads(moved));
            }
        }
    }
}

/// No marker starts at a character other than `[`.
proof fn lemma_markers_skip(s: Seq<char>, at: int)
    requires
        0 <= at < s.len(),
        s[at] != '[',
    ensures
        markers_from(s, at) == markers_from(s, at + 1),
{
    reveal_strlit("[image:");
    let low = text::lowered(s);
    assert(low[at] == text::lower(s[at]));
    assert(low[at] != '[');
    if text::occurs_at(low, "[image:"@, at) {
        assert(low.subrange(at, at + 7)[0] == low[at]);
        assert(false);
    }
}

/// A marker for a plain path is read as that path.
proof fn lemma_marker_reads(pre: Seq<char>, path: Seq<char>, post: Seq<char>)
    requires
        is_plain_path(path),
    ensures
        payloads(markers_from(pre + marker_for(path) + post, pre.len() as int)) == seq![path]
            + payloads(markers(post)),
{
    reveal_strlit("[image:");
    reveal_strlit("[IMAGE:");
    reveal_strlit("]");
    let s = pre + marker_for(path) + post;
    let at = pre.len() as int;
    let low = text::lowered(s);
    assert(low.subrange(at, at + 7) =~= "[image:"@) by {
        let upper = "[IMAGE:"@;
        assert forall|i: int| 0 <= i < 7 implies low.subrange(at, at + 7)[i] == "[image:"@[i] by {
            assert(s[at + i] == upper[i]);
            assert(low[at + i] == text::lower(upper[i]));
        }
    }
    assert(text::find(low, "[image:"@, at) == Some(at));
    let inner = at + 7;
    let end = inner + path.len();
    assert(s[end] == ']');
    assert forall|j: int| inner <= j < end implies s[j] != ']' by {
        assert(s[j] == path[j - inner]);
    }
    text::lemma_find_char(s, ']', inner);
    assert(text::find_char(s, ']', inner) == Some(end));
    assert(s.subrange(inner, end) =~= path);
    let rest = markers_from(s, end + 1);
    assert(payloads(seq![Span { start: at, end: end + 1, payload: path }] + rest) =~= seq![path]
        + payloads(rest));
    assert(s =~= (pre + marker_for(path)) + post);
    lemma_markers_shift(pre + marker_for(path), post, 0);
}

proof fn lemma_marker_lines_read(paths: Seq<Seq<char>>, tail: Seq<char>)
    requires
        paths.len() > 0,
        forall|i: int| 0 <= i < paths.len() ==> is_plain_path(#[trigger] paths[i]),
    ensures
        payloads(markers(marker_lines(paths) + tail)) == paths + payloads(markers(tail)),
    decreases paths.len(),
{
    let lines = paths.map_values(|p: Seq<char>| marker_for(p));
    let last = paths.last();
    assert(is_plain_path(paths[paths.len() - 1]));
    if paths.len() == 1 {
        lemma_marker_reads(Seq::empty(), last, tail);
        assert(Seq::<char>::empty() + marker_for(last) + tail =~= marker_lines(paths) + tail);
        assert(seq![last] =~= paths);
    } else {
        reveal_strlit("\n");
        let front = paths.drop_last();
        let next = "\n"@ + marker_for(last) + tail;
        assert forall|i: int| 0 <= i < front.len() implies is_plain_path(#[trigger] front[i]) by {
            assert(front[i] == paths[i]);
        }
        lemma_marker_lines_read(front, next);
        assert(lines.drop_last() =~= front.map_values(|p: Seq<char>| marker_for(p)));
        assert(lines.last() == marker_for(last));
        assert(marker_lines(paths) + tail =~= marker_lines(front) + next);
        lemma_markers_skip(next, 0);
        lemma_marker_reads("\n"@, last, tail);
        assert(front + (seq![last] + payloads(markers(tail))) =~= paths + payloads(
            markers(tail),
        ));
    }
}

/// The reply that a client reads back carries the verified markers first, in
/// order, and behind them only what the reply's body still holds.
pub proof fn law_verified_markers_lead(
    text: Seq<char>,
    authoritative: Seq<Seq<char>>,
    files: Seq<Seq<char>>,
)
    requires
        forall|i: int|
            0 <= i < authoritative.len() ==> is_plain_path(#[trigger] authoritative[i]),
    ensures
        ({
            let r = rewritten(text, authoritative, true, files);
            payloads(markers(r.text)) == r.added + payloads(
                markers(body_of(text, authoritative, files)),
            )
        }),
{
    let r = rewritten(text, authoritative, true, files);
    let body = body_of(text, authoritative, files);
    law_each_render_once(authoritative, r.kept);
    assert forall|i: int| 0 <= i < r.added.len() implies is_plain_path(#[trigger] r.added[i]) by {
        assert(r.added.contains(r.added[i]));
        let j = choose|j: int| 0 <= j < authoritative.len() && authoritative[j] == r.added[i];
        assert(is_plain_path(authoritative[j]));
    }
    if r.added.len() == 0 {
        assert(r.added + payloads(markers(body)) =~= payloads(markers(body)));
    } else if text::is_blank(body) {
        lemma_marker_lines_read(r.added, Seq::empty());
        assert(marker_lines(r.added) + Seq::<char>::empty() =~= r.text);
        lemma_no_marker_in_blank(body);
        lemma_no_marker_in_blank(Seq::empty());
    } else {
        reveal_strlit("\n\n");
        let gap = "\n\n"@;
        lemma_marker_lines_read(r.added, gap + body);
        assert(marker_lines(r.added) + (gap + body) =~= r.text);
        lemma_markers_skip(gap + body, 0);
        lemma_markers_skip(gap + body, 1);
        lemma_markers_shift(gap, body, 0);
    }
}

proof fn lemma_no_marker_in_blank(s: Seq<char>)
    requires
        text::is_blank(s),
    ensures
        markers(s) == Seq::<Span>::empty(),
{
    reveal_strlit("[image:");
    let low = text::lowered(s);
    text::lemma_find(low, "[image:"@, 0);
    if let Some(i) = text::find(low, "[image:"@, 0) {
        assert(low.subrange(i, i + 7)[0] == low[i]);
        assert(low[i] == text::lower(s[i]));
        assert(text::is_space(s[i]));
    }
}

/// Each verified render is added once, in the order of the receipts, and no
/// other path is added.
pub proof fn law_each_render_once(authoritative: Seq<Seq<char>>, kept: Seq<Seq<char>>)
    ensures
        additions(authoritative, kept).no_duplicates(),
        forall|p: Seq<char>|
            #[trigger] additions(authoritative, kept).contains(p) <==> authoritative.contains(p)
                && !kept.contains(p),
    decreases authoritative.len(),
{
    let all = additions(authoritative, kept);
    if authoritative.len() > 0 {
        let front = authoritative.drop_last();
        let path = authoritative.last();
        let rest = additions(front, kept);
        law_each_render_once(front, kept);
        assert forall|p: Seq<char>| #[trigger] all.contains(p) <==> authoritative.contains(p)
            && !kept.contains(p) by {
            assert(authoritative.contains(p) <==> front.contains(p) || p == path) by {
                if front.contains(p) {
                    let i = choose|i: int| 0 <= i < front.len() && front[i] == p;
                    assert(authoritative[i] == p);
                }
                if authoritative.contains(p) {
                    let i = choose|i: int| 0 <= i < authoritative.len() && authoritative[i] == p;
                    if i < front.len() {
                        assert(front[i] == p);
                    }
                }
                if p == path {
                    assert(authoritative[authoritative.len() - 1] == p);
                }
            }
            assert(all != rest ==> (all.contains(p) <==> rest.contains(p) || p == path)) by {
                if all != rest {
                    assert(all[rest.len() as int] == path);
                    if rest.contains(p) {
                        let i = choose|i: int| 0 <= i < rest.len() && rest[i] == p;
                        assert(all[i] == p);
                    }
                    if all.contains(p) {
                        let i = choose|i: int| 0 <= i < all.len() && all[i] == p;
                        if i < rest.len() {
                            assert(rest[i] == p);
                        }
                    }
                }
            }
        }
        assert forall|i: int, j: int| 0 <= i < all.len() && 0 <= j < all.len() && i != j implies
            all[i] != all[j] by {
            if all != rest {
                if i < rest.len() {
                    assert(rest[i] == all[i] && rest.contains(rest[i]));
                }
                if j < rest.len() {
                    assert(rest[j] == all[j] && rest.contains(rest[j]));
                }
            }
        }
    }
}

/// When the turn has renders of its own, no model-written marker is trusted:
/// every one is dropped, and every verified path is added.
pub proof fn law_renders_replace_the_models_markers(
    text: Seq<char>,
    authoritative: Seq<Seq<char>>,
    files: Seq<Seq<char>>,
)
    requires
        authoritative.len() > 0,
    ensures
        ({
            let r = rewritten(text, authoritative, true, files);
            &&& r.kept == Seq::<Seq<char>>::empty()
            &&& r.dropped == payloads(markers(text))
            &&& r.added.to_set() == authoritative.to_set()
        }),
{
    let spans = markers(text);
    let keep = |m: Span| keeps(m, authoritative, files);
    let drop = |m: Span| !keeps(m, authoritative, files);
    lemma_filter_none(spans, keep);
    lemma_filter_all(spans, drop);
    let r = rewritten(text, authoritative, true, files);
    assert(r.kept =~= Seq::<Seq<char>>::empty());
    law_each_render_once(authoritative, r.kept);
    assert(r.added.to_set() =~= authoritative.to_set()) by {
        assert forall|p: Seq<char>|
            r.added.to_set().contains(p) <==> authoritative.to_set().contains(p) by {
            assert(r.added.contains(p) <==> authoritative.contains(p));
        }
    }
}

proof fn lemma_filter_none(spans: Seq<Span>, pred: spec_fn(Span) -> bool)
    requires
        forall|m: Span| !#[trigger] pred(m),
    ensures
        spans.filter(pred) == Seq::<Span>::empty(),
    decreases spans.len(),
{
    reveal(Seq::filter);
    if spans.len() > 0 {
        lemma_filter_none(spans.drop_last(), pred);
    }
}

proof fn lemma_filter_all(spans: Seq<Span>, pred: spec_fn(Span) -> bool)
    requires
        forall|m: Span| #[trigger] pred(m),
    ensures
        spans.filter(pred) == spans,
    decreases spans.len(),
{
    reveal(Seq::filter);
    if spans.len() > 0 {
        lemma_filter_all(spans.drop_last(), pred);
        assert(spans.drop_last().push(spans.last()) =~= spans);
    }
}

/// Without a render of its own, a turn adds nothing, keeps what can be served
/// and drops what never could.
pub proof fn law_without_renders_only_unservable_markers_go(
    text: Seq<char>,
    prepend: bool,
    files: Seq<Seq<char>>,
)
    ensures
        ({
            let r = rewritten(text, Seq::empty(), prepend, files);
            &&& r.added == Seq::<Seq<char>>::empty()
            &&& forall|i: int| 0 <= i < r.kept.len() ==> servable(#[trigger] r.kept[i], files)
            &&& forall|i: int|
                0 <= i < r.dropped.len() ==> !servable(#[trigger] r.dropped[i], files)
            &&& r.kept.len() + r.dropped.len() == markers(text).len()
        }),
{
    let none = Seq::<Seq<char>>::empty();
    let spans = markers(text);
    let keep = |m: Span| keeps(m, none, files);
    let drop = |m: Span| !keeps(m, none, files);
    lemma_filter_split(spans, keep, drop);
    let r = rewritten(text, none, prepend, files);
    assert forall|i: int| 0 <= i < r.kept.len() implies servable(#[trigger] r.kept[i], files) by {
        assert(keep(spans.filter(keep)[i]));
    }
    assert forall|i: int| 0 <= i < r.dropped.len() implies !servable(
        #[trigger] r.dropped[i],
        files,
    ) by {
        assert(drop(spans.filter(drop)[i]));
    }
}

proof fn lemma_filter_split(
    spans: Seq<Span>,
    pred: spec_fn(Span) -> bool,
    other: spec_fn(Span) -> bool,
)
    requires
        forall|m: Span| #[trigger] pred(m) == !other(m),
    ensures
        spans.filter(pred).len() + spans.filter(other).len() == spans.len(),
        forall|i: int| 0 <= i < spans.filter(pred).len() ==> pred(#[trigger] spans.filter(pred)[i]),
        forall|i: int|
            0 <= i < spans.filter(other).len() ==> other(#[trigger] spans.filter(other)[i]),
    decreases spans.len(),
{
    reveal(Seq::filter);
    if spans.len() > 0 {
        lemma_filter_split(spans.drop_last(), pred, other);
        assert(pred(spans.last()) == !other(spans.last()));
    }
}

/// A reply to which nothing is added and from which nothing is dropped stays as
/// it was written.
pub proof fn law_unchanged_reply_is_verbatim(
    text: Seq<char>,
    authoritative: Seq<Seq<char>>,
    prepend: bool,
    files: Seq<Seq<char>>,
)
    ensures
        ({
            let r = rewritten(text, authoritative, prepend, files);
            r.added.len() == 0 && r.dropped.len() == 0 ==> r.text == text
        }),
{
    assert(payloads(dropped_spans(text, authoritative, files)).len() == dropped_spans(
        text,
        authoritative,
        files,
    ).len());
}

/// A reply that is not worth a lookup holds no image marker.
pub proof fn law_no_mention_no_marker(text: Seq<char>)
    requires
        !mentions_render(text),
    ensures
        markers(text) == Seq::<Span>::empty(),
{
    text::lemma_find(text::lowered(text), "[image:"@, 0);
}

/// Of the messages of a turn at most one gains markers, so that a backfill from
/// them shows each render once.
pub proof fn law_one_message_gains_markers(messages: Seq<MessageView>, i: int, j: int)
    requires
        is_last_assistant(messages, i),
        is_last_assistant(messages, j),
    ensures
        i == j,
{
    if i < j {
        assert(is_assistant(messages[j]));
    } else if j < i {
        assert(is_assistant(messages[i]));
    }
}

/// A message that is not the assistant's last gains nothing.
pub proof fn law_other_messages_gain_nothing(
    text: Seq<char>,
    authoritative: Seq<Seq<char>>,
    files: Seq<Seq<char>>,
)
    ensures
        ({
            let r = rewritten(text, authoritative, false, files);
            r.added.len() == 0 && r.text == body_of(text, authoritative, files)
        }),
{
}


/// Whether a text has a line from one place to another.
pub open spec fn is_line(s: Seq<char>, from: int, to: int) -> bool {
    &&& 0 <= from <= to <= s.len()
    &&& from < s.len()
    &&& from == 0 || s[from - 1] == '\n'
    &&& to == s.len() || s[to] == '\n'
    &&& forall|i: int| from <= i < to ==> s[i] != '\n'
}

/// Whether some characters are a line of a text.
pub open spec fn has_line(s: Seq<char>, line: Seq<char>) -> bool {
    exists|from: int, to: int| #[trigger]
        is_line(s, from, to) && line == line_at(s, from, to)
}

/// Whether some characters are a line of a text, of which cutting has left
/// something or to which it has done nothing.
spec fn stays(s: Seq<char>, cuts: Seq<int>, line: Seq<char>) -> bool {
    exists|from: int, to: int| #[trigger]
        is_line(s, from, to) && line == line_at(s, from, to) && !(
        text::is_blank(line) && is_cut(cuts, from, to))
}

proof fn lemma_lines_left(s: Seq<char>, cuts: Seq<int>, from: int)
    requires
        0 <= from,
        from == 0 || from > s.len() || s[from - 1] == '\n',
    ensures
        forall|i: int|
            0 <= i < lines_left(s, cuts, from).len() ==> stays(
                s,
                cuts,
                #[trigger] lines_left(s, cuts, from)[i],
            ),
    decreases s.len() - from,
{
    if from < s.len() {
        text::lemma_find_char(s, '\n', from);
        let to = match text::find_char(s, '\n', from) {
            None => s.len() as int,
            Some(end) => end,
        };
        assert(is_line(s, from, to));
        let head = line_left(s, cuts, from, to);
        let all = lines_left(s, cuts, from);
        if to < s.len() {
            lemma_lines_left(s, cuts, to + 1);
            let rest = lines_left(s, cuts, to + 1);
            assert forall|i: int| 0 <= i < all.len() implies stays(s, cuts, #[trigger] all[i]) by {
                if i >= head.len() {
                    assert(all[i] == rest[i - head.len()]);
                }
            }
        }
    }
}

proof fn lemma_filter_in_order(spans: Seq<Span>, size: int, pred: spec_fn(Span) -> bool)
    requires
        in_order(spans, 0, size),
    ensures
        in_order(spans.filter(pred), 0, size),
        forall|i: int|
            0 <= i < spans.filter(pred).len() ==> spans.contains(#[trigger] spans.filter(pred)[i]),
    decreases spans.len(),
{
    reveal(Seq::filter);
    if spans.len() > 0 {
        let front = spans.drop_last();
        assert forall|i: int| 0 <= i < front.len() implies 0 <= (#[trigger] front[i]).start
            < front[i].end <= size by {
            assert(front[i] == spans[i]);
        }
        assert forall|i: int, j: int| 0 <= i < j < front.len() implies (#[trigger] front[i]).end
            <= (#[trigger] front[j]).start by {
            assert(front[i] == spans[i] && front[j] == spans[j]);
        }
        lemma_filter_in_order(front, size, pred);
        let kept = front.filter(pred);
        let all = spans.filter(pred);
        let last = spans.len() - 1;
        assert forall|i: int| 0 <= i < all.len() implies spans.contains(#[trigger] all[i]) by {
            if i < kept.len() {
                assert(all[i] == kept[i]);
                let k = choose|k: int| 0 <= k < front.len() && front[k] == kept[i];
                assert(spans[k] == all[i]);
            } else {
                assert(all[i] == spans[last]);
            }
        }
        assert forall|i: int| 0 <= i < all.len() implies 0 <= (#[trigger] all[i]).start
            < all[i].end <= size by {
            assert(spans.contains(all[i]));
        }
        assert forall|i: int, j: int| 0 <= i < j < all.len() implies (#[trigger] all[i]).end <= (
        #[trigger] all[j]).start by {
            assert(all[i] == kept[i]);
            if j < kept.len() {
                assert(all[j] == kept[j]);
            } else {
                assert(front.contains(kept[i]));
                let k = choose|k: int| 0 <= k < front.len() && front[k] == kept[i];
                assert(spans[k].end <= spans[last].start);
            }
        }
    }
}

proof fn lemma_before_last_grows(text: Seq<char>, spans: Seq<Span>, n: int)
    requires
        in_order(spans, 0, text.len() as int),
        0 <= n <= spans.len(),
    ensures
        before_last(text, spans.take(n)).is_prefix_of(before_last(text, spans)),
    decreases spans.len(),
{
    if n == spans.len() {
        assert(spans.take(n) =~= spans);
    } else {
        let front = spans.drop_last();
        assert(front.take(n) =~= spans.take(n));
        assert(in_order(front, 0, text.len() as int));
        lemma_before_last_grows(text, front, n);
        let short = before_last(text, front);
        let long = before_last(text, spans);
        assert(long.take(short.len() as int) =~= short);
        assert(before_last(text, spans.take(n)) =~= long.take(
            before_last(text, spans.take(n)).len() as int,
        ));
    }
}

/// Between two neighbouring cuts a text stands as it stood.
proof fn lemma_piece(text: Seq<char>, spans: Seq<Span>, n: int)
    requires
        in_order(spans, 0, text.len() as int),
        0 <= n <= spans.len(),
    ensures
        ({
            let body = outside(text, spans);
            let cuts = cut_places(text, spans);
            let lo = if n == 0 {
                0
            } else {
                cuts[n - 1]
            };
            let hi = if n == spans.len() {
                body.len() as int
            } else {
                cuts[n]
            };
            let start = end_of(spans.take(n));
            let end = if n == spans.len() {
                text.len() as int
            } else {
                spans[n].start
            };
            &&& 0 <= lo <= hi <= body.len()
            &&& hi - lo == end - start
            &&& 0 <= start <= end <= text.len()
            &&& body.subrange(lo, hi) == text.subrange(start, end)
        }),
{
    let body = outside(text, spans);
    let before = spans.take(n);
    let done = before_last(text, before);
    lemma_before_last_grows(text, spans, n);
    if n == 0 {
        assert(before =~= Seq::empty());
    } else {
        assert(before.last() == spans[n - 1]);
    }
    if n == spans.len() {
        assert(before =~= spans);
        assert(body.subrange(done.len() as int, body.len() as int) =~= text.skip(end_of(spans)));
    } else {
        let more = spans.take(n + 1);
        assert(more.drop_last() =~= before);
        assert(more.last() == spans[n]);
        lemma_before_last_grows(text, spans, n + 1);
        let piece = text.subrange(end_of(before), spans[n].start);
        let grown = before_last(text, more);
        assert(grown == done + piece);
        let whole = before_last(text, spans);
        assert forall|i: int| 0 <= i < grown.len() implies body[i] == #[trigger] grown[i] by {
            assert(whole.take(grown.len() as int)[i] == grown[i]);
        }
        let found = body.subrange(done.len() as int, grown.len() as int);
        assert forall|i: int| 0 <= i < piece.len() implies found[i] == #[trigger] piece[i] by {
            assert(grown[done.len() + i] == piece[i]);
        }
        assert(found =~= piece);
    }
}

/// A line of a text from which nothing was cut is a line of the text as it was.
proof fn lemma_uncut_line(text: Seq<char>, spans: Seq<Span>, from: int, to: int)
    requires
        in_order(spans, 0, text.len() as int),
        is_line(outside(text, spans), from, to),
        !is_cut(cut_places(text, spans), from, to),
    ensures
        has_line(text, line_at(outside(text, spans), from, to)),
{
    let body = outside(text, spans);
    let cuts = cut_places(text, spans);
    let n = cuts_before(cuts, from, spans.len() as int);
    lemma_cuts_before(cuts, from, spans.len() as int);
    lemma_piece(text, spans, n);
    let lo = if n == 0 {
        0
    } else {
        cuts[n - 1]
    };
    let hi = if n == spans.len() {
        body.len() as int
    } else {
        cuts[n]
    };
    let start = end_of(spans.take(n));
    let end = if n == spans.len() {
        text.len() as int
    } else {
        spans[n].start
    };
    let by = start - lo;
    assert(n < spans.len() ==> to < hi) by {
        if n < spans.len() {
            assert(!(from <= cuts[n] <= to));
        }
    }
    assert forall|i: int| lo <= i < hi implies #[trigger] body[i] == text[i + by] by {
        assert(body.subrange(lo, hi)[i - lo] == text.subrange(start, end)[i - lo]);
    }
    assert(from == 0 ==> n == 0);
    assert(from > 0 ==> body[from - 1] == text[from - 1 + by]);
    assert forall|i: int| from + by <= i < to + by implies text[i] != '\n' by {
        assert(body[i - by] == text[i]);
    }
    assert(to < hi ==> body[to] == text[to + by]);
    assert(text.subrange(from + by, to + by) =~= body.subrange(from, to));
    assert(to < body.len() <==> to + by < text.len());
    assert(is_line(text, from + by, to + by));
}

/// How many of the first `n` places lie before a place.
spec fn cuts_before(cuts: Seq<int>, place: int, n: int) -> int
    decreases n,
{
    if n <= 0 {
        0
    } else if cuts[n - 1] < place {
        n
    } else {
        cuts_before(cuts, place, n - 1)
    }
}

proof fn lemma_cuts_before(cuts: Seq<int>, place: int, n: int)
    requires
        0 <= n <= cuts.len(),
    ensures
        0 <= cuts_before(cuts, place, n) <= n,
        cuts_before(cuts, place, n) > 0 ==> cuts[cuts_before(cuts, place, n) - 1] < place,
        cuts_before(cuts, place, n) < n ==> cuts[cuts_before(cuts, place, n)] >= place,
    decreases n,
{
    if n > 0 && cuts[n - 1] >= place {
        lemma_cuts_before(cuts, place, n - 1);
    }
}

/// Taking a marker out leaves no line of its own behind: each blank line among
/// those that the body is made of was a line of the reply.
pub proof fn law_no_line_of_a_marker_is_left_behind(
    text: Seq<char>,
    authoritative: Seq<Seq<char>>,
    files: Seq<Seq<char>>,
    i: int,
)
    requires
        ({
            let dropped = dropped_spans(text, authoritative, files);
            let left = lines_left(outside(text, dropped), cut_places(text, dropped), 0);
            0 <= i < left.len() && text::is_blank(left[i])
        }),
    ensures
        ({
            let dropped = dropped_spans(text, authoritative, files);
            let left = lines_left(outside(text, dropped), cut_places(text, dropped), 0);
            has_line(text, left[i])
        }),
{
    let drop = |m: Span| !keeps(m, authoritative, files);
    let dropped = dropped_spans(text, authoritative, files);
    let body = outside(text, dropped);
    let cuts = cut_places(text, dropped);
    let left = lines_left(body, cuts, 0);
    lemma_markers_in_order(text, 0);
    lemma_filter_in_order(markers(text), text.len() as int, drop);
    lemma_lines_left(body, cuts, 0);
    assert(stays(body, cuts, left[i]));
    let (from, to) = choose|from: int, to: int| #[trigger]
        is_line(body, from, to) && left[i] == line_at(body, from, to) && !(text::is_blank(left[i])
            && is_cut(cuts, from, to));
    lemma_uncut_line(text, dropped, from, to);
}

/// The renders are added in the order of the receipts: what is added earlier
/// stands in front of every place of what is added later. Where no receipt names
/// a path twice and none is kept, the receipts' paths are what is added.
pub proof fn law_renders_are_added_in_order(
    authoritative: Seq<Seq<char>>,
    kept: Seq<Seq<char>>,
    i: int,
    j: int,
    place: int,
)
    ensures
        ({
            let added = additions(authoritative, kept);
            0 <= i < j < added.len() && 0 <= place < authoritative.len() && authoritative[place]
                == added[j] ==> exists|first: int|
                0 <= first < place && #[trigger] authoritative[first] == added[i]
        }),
        authoritative.no_duplicates() && (forall|k: int|
            0 <= k < authoritative.len() ==> !kept.contains(#[trigger] authoritative[k]))
            ==> additions(authoritative, kept) == authoritative,
    decreases authoritative.len(),
{
    let added = additions(authoritative, kept);
    if authoritative.len() > 0 {
        let front = authoritative.drop_last();
        let path = authoritative.last();
        let rest = additions(front, kept);
        law_each_render_once(front, kept);
        law_renders_are_added_in_order(front, kept, i, j, place);
        if 0 <= i < j < added.len() && 0 <= place < authoritative.len() && authoritative[place]
            == added[j] {
            assert(added[i] == rest[i]);
            if place < front.len() {
                assert(front[place] == authoritative[place]);
                assert(front.contains(added[j]));
                assert(j < rest.len());
                let first = choose|first: int|
                    0 <= first < place && #[trigger] front[first] == rest[i];
                assert(authoritative[first] == added[i]);
            } else {
                assert(rest.contains(rest[i]));
                let first = choose|first: int| 0 <= first < front.len() && front[first] == rest[i];
                assert(authoritative[first] == added[i]);
            }
        }
        if authoritative.no_duplicates() && (forall|k: int|
            0 <= k < authoritative.len() ==> !kept.contains(#[trigger] authoritative[k])) {
            assert forall|k: int| 0 <= k < front.len() implies !kept.contains(
                #[trigger] front[k],
            ) by {
                assert(front[k] == authoritative[k]);
            }
            assert(rest == front);
            if front.contains(path) {
                let k = choose|k: int| 0 <= k < front.len() && front[k] == path;
                assert(authoritative[k] == authoritative[authoritative.len() - 1]);
            }
            assert(!kept.contains(authoritative[authoritative.len() - 1]));
            assert(added =~= authoritative);
        }
    }
}

/// A reply whose turn has renders of its own gains them in the order of the
/// receipts, each once; where no receipt names a path twice, exactly as the
/// receipts have them.
pub proof fn law_a_reply_gains_the_renders_in_order(
    text: Seq<char>,
    authoritative: Seq<Seq<char>>,
    files: Seq<Seq<char>>,
    i: int,
    j: int,
    place: int,
)
    ensures
        ({
            let added = rewritten(text, authoritative, true, files).added;
            0 <= i < j < added.len() && 0 <= place < authoritative.len() && authoritative[place]
                == added[j] ==> added[i] != added[j] && exists|first: int|
                0 <= first < place && #[trigger] authoritative[first] == added[i]
        }),
        authoritative.no_duplicates() ==> rewritten(text, authoritative, true, files).added
            == authoritative,
{
    let r = rewritten(text, authoritative, true, files);
    law_each_render_once(authoritative, r.kept);
    law_renders_are_added_in_order(authoritative, r.kept, i, j, place);
    if authoritative.len() > 0 {
        law_renders_replace_the_models_markers(text, authoritative, files);
    }
}

/// What names an image: a path from the root or from home, data, a job, an
/// address, or a name with an image's ending; in any case.
pub proof fn law_what_names_an_image(payload: Seq<char>)
    ensures
        names_image(payload) <==> payload.len() > 0 && (payload[0] == '/' || payload[0] == '~'
            || "data:"@.is_prefix_of(text::lowered(payload)) || "comfy-job:"@.is_prefix_of(
            text::lowered(payload),
        ) || (exists|before: Seq<char>, after: Seq<char>|
            text::lowered(payload) == #[trigger] (before + "://"@ + after)) || ".png"@.is_suffix_of(
            text::lowered(payload),
        ) || ".jpg"@.is_suffix_of(text::lowered(payload)) || ".jpeg"@.is_suffix_of(
            text::lowered(payload),
        ) || ".webp"@.is_suffix_of(text::lowered(payload)) || ".gif"@.is_suffix_of(
            text::lowered(payload),
        ) || ".bmp"@.is_suffix_of(text::lowered(payload))),
{
    let low = text::lowered(payload);
    text::law_containing(low, "data:"@);
    text::law_containing(low, "comfy-job:"@);
    text::law_containing(low, "://"@);
    text::law_containing(low, ".png"@);
    text::law_containing(low, ".jpg"@);
    text::law_containing(low, ".jpeg"@);
    text::law_containing(low, ".webp"@);
    text::law_containing(low, ".gif"@);
    text::law_containing(low, ".bmp"@);
}

/// Markers are read one after another. The first opener, in any case, reaches to
/// the first bracket that closes it; what stands between, without the white space
/// around it, is a marker's if it names an image; and the reading goes on behind
/// the bracket.
pub proof fn law_markers_are_read_one_after_another(
    text: Seq<char>,
    from: int,
    start: int,
    end: int,
)
    requires
        0 <= from <= start,
        start + 7 <= end < text.len(),
        text::lowered(text).subrange(start, start + 7) == "[image:"@,
        forall|k: int| from <= k < start ==> !text::occurs_at(text::lowered(text), "[image:"@, k),
        text[end] == ']',
        forall|k: int| start + 7 <= k < end ==> text[k] != ']',
    ensures
        ({
            let payload = text::trimmed(text.subrange(start + 7, end));
            let rest = markers_from(text, end + 1);
            &&& names_image(payload) ==> markers_from(text, from) == seq![
                Span { start, end: end + 1, payload },
            ] + rest
            &&& !names_image(payload) ==> markers_from(text, from) == rest
        }),
{
    reveal_strlit("[image:");
    let low = text::lowered(text);
    assert("[image:"@.len() == 7);
    text::lemma_find(low, "[image:"@, from);
    assert(text::occurs_at(low, "[image:"@, start));
    assert(text::find(low, "[image:"@, from) == Some(start));
    text::lemma_find_char(text, ']', start + 7);
    assert(text::find_char(text, ']', start + 7) == Some(end));
}

/// Without an opener there is no further marker, nor where no bracket closes the
/// first one.
pub proof fn law_where_no_marker_follows(text: Seq<char>, from: int, start: int)
    requires
        0 <= from <= start,
        forall|k: int| from <= k < start ==> !text::occurs_at(text::lowered(text), "[image:"@, k),
        start >= text.len() || (text::occurs_at(text::lowered(text), "[image:"@, start) && forall|
            k: int,
        | start + 7 <= k < text.len() ==> text[k] != ']'),
    ensures
        markers_from(text, from) == Seq::<Span>::empty(),
{
    reveal_strlit("[image:");
    let low = text::lowered(text);
    assert("[image:"@.len() == 7);
    text::lemma_find(low, "[image:"@, from);
    if text::find(low, "[image:"@, from) is Some {
        let first = text::find(low, "[image:"@, from)->0;
        assert(first == start);
        text::lemma_find_char(text, ']', first + 7);
    }
}

/// A marker stays exactly where its turn has no renders of its own and its path
/// is a regular file, from the root and never stepping up; all others go; and
/// what stays and what goes keeps its order.
pub proof fn law_which_markers_stay(
    text: Seq<char>,
    authoritative: Seq<Seq<char>>,
    prepend: bool,
    files: Seq<Seq<char>>,
)
    ensures
        ({
            let r = rewritten(text, authoritative, prepend, files);
            let stays = |m: Span|
                authoritative.len() == 0 && files.contains(m.payload) && seq!['/'].is_prefix_of(
                    m.payload,
                ) && !path::has_parent(m.payload);
            &&& r.kept == markers_from(text, 0).filter(stays).map_values(|m: Span| m.payload)
            &&& r.dropped == markers_from(text, 0).filter(|m: Span| !stays(m)).map_values(
                |m: Span| m.payload,
            )
            &&& dropped_spans(text, authoritative, files) == markers_from(text, 0).filter(
                |m: Span| !stays(m),
            )
            &&& !prepend ==> r.added.len() == 0
        }),
{
    let stays = |m: Span|
        authoritative.len() == 0 && files.contains(m.payload) && seq!['/'].is_prefix_of(m.payload)
            && !path::has_parent(m.payload);
    let ours = |m: Span| keeps(m, authoritative, files);
    assert forall|m: Span| #[trigger] ours(m) == stays(m) by {
        path::law_clean_paths(m.payload);
    }
    assert(ours =~= stays);
    assert((|m: Span| !keeps(m, authoritative, files)) =~= (|m: Span| !stays(m))) by {
        assert forall|m: Span| (!keeps(m, authoritative, files)) == !stays(m) by {
            assert(ours(m) == stays(m));
        }
    }
}

/// The added markers stand first, one on each line, and behind an empty line what
/// is left of the reply; nothing but the markers where only white space is left,
/// and nothing but what is left where no marker is added.
pub proof fn law_markers_stand_above_the_reply(
    text: Seq<char>,
    authoritative: Seq<Seq<char>>,
    prepend: bool,
    files: Seq<Seq<char>>,
    added: Seq<Seq<char>>,
    body: Seq<char>,
)
    ensures
        rewritten(text, authoritative, prepend, files).text == under_markers(
            rewritten(text, authoritative, prepend, files).added,
            body_of(text, authoritative, files),
        ),
        added.len() == 0 ==> under_markers(added, body) == body,
        ({
            let head = text::joined(
                added.map_values(|p: Seq<char>| "[IMAGE:"@ + p + "]"@),
                "\n"@,
            );
            &&& added.len() > 0 && (forall|k: int|
                0 <= k < body.len() ==> text::is_space(#[trigger] body[k])) ==> under_markers(
                added,
                body,
            ) == head
            &&& added.len() > 0 && !(forall|k: int|
                0 <= k < body.len() ==> text::is_space(#[trigger] body[k])) ==> under_markers(
                added,
                body,
            ) == head + "\n\n"@ + body
        }),
{
    assert((|p: Seq<char>| "[IMAGE:"@ + p + "]"@) =~= (|p: Seq<char>| marker_for(p)));
}

/// A reply from which nothing is dropped is left as it was; otherwise its lines
/// are tidied at the places where something was taken out.
pub proof fn law_what_is_left_of_a_reply(
    text: Seq<char>,
    authoritative: Seq<Seq<char>>,
    files: Seq<Seq<char>>,
)
    ensures
        ({
            let dropped = dropped_spans(text, authoritative, files);
            &&& dropped.len() == 0 ==> body_of(text, authoritative, files) == text
            &&& dropped.len() > 0 ==> body_of(text, authoritative, files) == tidied(
                outside(text, dropped),
                cut_places(text, dropped),
            )
        }),
{
}

/// Taking markers out takes out nothing else: what stood between two of them, in
/// front of the first and behind the last stands as it stood, from one place
/// where something was taken out to the next.
pub proof fn law_only_the_markers_are_taken_out(text: Seq<char>, spans: Seq<Span>, n: int)
    requires
        in_order(spans, 0, text.len() as int),
        0 <= n <= spans.len(),
    ensures
        cut_places(text, spans).len() == spans.len(),
        ({
            let body = outside(text, spans);
            let cuts = cut_places(text, spans);
            let lo = if n == 0 {
                0
            } else {
                cuts[n - 1]
            };
            let hi = if n == spans.len() {
                body.len() as int
            } else {
                cuts[n]
            };
            let start = if n == 0 {
                0
            } else {
                spans[n - 1].end
            };
            let end = if n == spans.len() {
                text.len() as int
            } else {
                spans[n].start
            };
            &&& 0 <= lo <= hi <= body.len()
            &&& body.subrange(lo, hi) == text.subrange(start, end)
            &&& hi - lo == end - start
        }),
{
    lemma_piece(text, spans, n);
    if n > 0 {
        assert(spans.take(n).last() == spans[n - 1]);
    }
}

/// The lines that are left: a line ends in front of its line feed, and in front of
/// a carriage return before that; a line goes where nothing but white space is
/// left of it and something was taken out of it; any other stays.
pub proof fn law_which_lines_are_left(
    s: Seq<char>,
    cuts: Seq<int>,
    from: int,
    to: int,
    line: Seq<char>,
)
    requires
        0 <= from <= to <= s.len(),
        from < s.len(),
        to == s.len() || s[to] == '\n',
        forall|k: int| from <= k < to ==> s[k] != '\n',
        from < to < s.len() && s[to - 1] == '\r' ==> line == s.subrange(from, to - 1),
        !(from < to < s.len() && s[to - 1] == '\r') ==> line == s.subrange(from, to),
    ensures
        ({
            let gone = (forall|k: int| 0 <= k < line.len() ==> text::is_space(#[trigger] line[k]))
                && (exists|k: int| 0 <= k < cuts.len() && from <= #[trigger] cuts[k] <= to);
            &&& gone ==> lines_left(s, cuts, from) == lines_left(s, cuts, to + 1)
            &&& !gone ==> lines_left(s, cuts, from) == seq![line] + lines_left(s, cuts, to + 1)
        }),
        lines_left(s, cuts, s.len() as int) == Seq::<Seq<char>>::empty(),
{
    text::lemma_find_char(s, '\n', from);
    let whole = s.subrange(from, to);
    if from < to {
        assert(whole.last() == s[to - 1]);
        assert(whole.drop_last() =~= s.subrange(from, to - 1));
    }
    assert(line_at(s, from, to) == line);
    if to == s.len() {
        assert(text::find_char(s, '\n', from) is None);
        assert(lines_left(s, cuts, to + 1) =~= Seq::<Seq<char>>::empty());
    } else {
        assert(text::find_char(s, '\n', from) == Some(to));
    }
    let rest = lines_left(s, cuts, to + 1);
    assert(lines_left(s, cuts, from) =~= line_left(s, cuts, from, to) + rest);
    assert(Seq::<Seq<char>>::empty() + rest =~= rest);
}

/// Of blank lines in a row only the first stays; every other line stays, and each
/// where it was.
pub proof fn law_no_two_blank_lines_in_a_row(front: Seq<Seq<char>>, back: Seq<Seq<char>>)
    ensures
        squeezed(Seq::empty()) == Seq::<Seq<char>>::empty(),
        back.len() == 1 ==> squeezed(back) == back,
        back.len() > 0 ==> squeezed(back).len() > 0 && squeezed(back)[0] == back[0],
        front.len() > 0 && back.len() > 0 ==> squeezed(front + back) == squeezed(front) + (
        if text::is_blank(front.last()) && text::is_blank(back.first()) {
            squeezed(back).drop_first()
        } else {
            squeezed(back)
        }),
    decreases back.len(),
{
    if back.len() == 1 {
        assert(back.drop_last() =~= Seq::empty());
        assert(squeezed(back) =~= back);
    }
    if back.len() > 0 {
        law_no_two_blank_lines_in_a_row(front, back.drop_last());
        if front.len() > 0 {
            let all = front + back;
            assert(all.last() == back.last());
            assert(all.drop_last() =~= front + back.drop_last());
            if back.len() == 1 {
                assert(all.drop_last() =~= front);
                assert(all[all.len() - 2] == front.last());
            } else {
                assert(all[all.len() - 2] == back[back.len() - 2]);
                assert(back.drop_last().first() == back.first());
            }
            assert(squeezed(all) =~= squeezed(front) + (if text::is_blank(front.last())
                && text::is_blank(back.first()) {
                squeezed(back).drop_first()
            } else {
                squeezed(back)
            }));
        }
    }
}

/// Lines are put together each with its line feed.
pub proof fn law_each_line_gets_its_feed(
    front: Seq<Seq<char>>,
    back: Seq<Seq<char>>,
    line: Seq<char>,
)
    ensures
        ended(Seq::empty()) == Seq::<char>::empty(),
        ended(seq![line]) == line.push('\n'),
        ended(front + back) == ended(front) + ended(back),
    decreases back.len(),
{
    let one = seq![line];
    assert(one.drop_last() =~= Seq::empty());
    assert(ended(one.drop_last()) =~= Seq::empty());
    assert(ended(one) =~= line.push('\n'));
    if back.len() == 0 {
        assert(front + back =~= front);
        assert(ended(front) + ended(back) =~= ended(front));
    } else {
        let all = front + back;
        law_each_line_gets_its_feed(front, back.drop_last(), line);
        assert(all.drop_last() =~= front + back.drop_last());
        assert(ended(front) + ended(back.drop_last()) + back.last().push('\n') =~= ended(front) + (
        ended(back.drop_last()) + back.last().push('\n')));
    }
}

/// Of a text that was tidied only the line feeds around it are gone: what stands
/// between them stands as it stood.
pub proof fn law_no_feeds_around_a_tidied_text(
    s: Seq<char>,
    cuts: Seq<int>,
    before: Seq<char>,
    middle: Seq<char>,
    after: Seq<char>,
)
    requires
        ended(squeezed(lines_left(s, cuts, 0))) == before + middle + after,
        forall|k: int| 0 <= k < before.len() ==> #[trigger] before[k] == '\n',
        forall|k: int| 0 <= k < after.len() ==> #[trigger] after[k] == '\n',
        middle.len() > 0 ==> middle.first() != '\n' && middle.last() != '\n',
    ensures
        tidied(s, cuts) == middle,
{
    let whole = before + middle + after;
    let back = middle + after;
    lemma_unfed_start(whole, before.len() as int);
    assert(whole.skip(before.len() as int) =~= back);
    if middle.len() == 0 {
        assert(back =~= after);
        lemma_unfed_start(after, after.len() as int);
        assert(after.skip(after.len() as int) =~= middle);
    } else {
        assert(back.first() == middle.first());
        lemma_unfed_end(back, middle.len() as int);
        assert(back.take(middle.len() as int) =~= middle);
    }
}

/// A turn is worth a lookup exactly where its reply or the output of one of its
/// tools names an image marker or reports a render, in any case.
pub proof fn law_which_turns_are_looked_up(s: Seq<char>, messages: Seq<MessageView>)
    ensures
        mentions_render(s) <==> (exists|before: Seq<char>, after: Seq<char>|
            text::lowered(s) == #[trigger] (before + "[image:"@ + after)) || (exists|
            before: Seq<char>,
            after: Seq<char>,
        | text::lowered(s) == #[trigger] (before + "render: prompt_id="@ + after)),
        wants_reconcile(s, messages) <==> mentions_render(s) || exists|i: int, k: int|
            0 <= i < messages.len() && messages[i] is ToolResults && 0 <= k
                < messages[i]->ToolResults_0.len() && mentions_render(
                #[trigger] messages[i]->ToolResults_0[k],
            ),
{
    text::law_containing(text::lowered(s), "[image:"@);
    text::law_containing(text::lowered(s), "render: prompt_id="@);
    if exists|i: int| 0 <= i < messages.len() && tool_mentions_render(#[trigger] messages[i]) {
        let i = choose|i: int|
            0 <= i < messages.len() && tool_mentions_render(#[trigger] messages[i]);
        let outputs = messages[i]->ToolResults_0;
        let k = choose|k: int| 0 <= k < outputs.len() && mentions_render(#[trigger] outputs[k]);
        assert(mentions_render(messages[i]->ToolResults_0[k]));
    }
    if exists|i: int, k: int|
        0 <= i < messages.len() && messages[i] is ToolResults && 0 <= k
            < messages[i]->ToolResults_0.len() && mentions_render(
            #[trigger] messages[i]->ToolResults_0[k],
        ) {
        let (i, k) = choose|i: int, k: int|
            0 <= i < messages.len() && messages[i] is ToolResults && 0 <= k
                < messages[i]->ToolResults_0.len() && mentions_render(
                #[trigger] messages[i]->ToolResults_0[k],
            );
        assert(tool_mentions_render(messages[i]));
    }
}

/// The verified files of a turn are the images that the lookup found, in its
/// order; none where it failed.
pub proof fn law_which_files_are_verified(
    list: Seq<session_jobs::DeliverableView>,
    words: Seq<char>,
)
    ensures
        verified_files(Ok(list)) == list.filter(
            |d: session_jobs::DeliverableView| d.kind == "image"@,
        ).map_values(|d: session_jobs::DeliverableView| d.path),
        verified_files(Err(words)) == Seq::<Seq<char>>::empty(),
    decreases list.len(),
{
    reveal(Seq::filter);
    let images = |d: session_jobs::DeliverableView| d.kind == "image"@;
    let paths = |d: session_jobs::DeliverableView| d.path;
    if list.len() > 0 {
        law_which_files_are_verified(list.drop_last(), words);
        if images(list.last()) {
            assert(list.filter(images) =~= list.drop_last().filter(images).push(list.last()));
        } else {
            assert(list.filter(images) =~= list.drop_last().filter(images));
        }
    }
    assert(verified_files(Ok(list)) =~= list.filter(images).map_values(paths));
}

/// How a turn's messages are reconciled: as many as before, each of the
/// assistant's rewritten and any other as it was; and only the assistant's last
/// one gains markers.
pub proof fn law_how_messages_are_reconciled(
    messages: Seq<MessageView>,
    authoritative: Seq<Seq<char>>,
    files: Seq<Seq<char>>,
    i: int,
)
    requires
        0 <= i < messages.len(),
    ensures
        reconciled(messages, authoritative, files).len() == messages.len(),
        ({
            let now = reconciled(messages, authoritative, files)[i];
            &&& messages[i] matches MessageView::Chat { role, content } ==> {
                let last = forall|j: int|
                    i < j < messages.len() ==> !((#[trigger] messages[j]) is Chat
                        && messages[j]->role == "assistant"@);
                &&& role == "assistant"@ && last ==> now == (MessageView::Chat {
                    role,
                    content: rewritten(content, authoritative, true, files).text,
                })
                &&& role == "assistant"@ && !last ==> now == (MessageView::Chat {
                    role,
                    content: body_of(content, authoritative, files),
                })
                &&& role != "assistant"@ ==> now == messages[i]
            }
            &&& !(messages[i] is Chat) ==> now == messages[i]
        }),
{
    if messages[i] is Chat {
        let content = messages[i]->content;
        law_unchanged_reply_is_verbatim(content, authoritative, true, files);
        law_unchanged_reply_is_verbatim(content, authoritative, false, files);
        law_other_messages_gain_nothing(content, authoritative, files);
        if messages[i]->role == "assistant"@ {
            assert(is_last_assistant(messages, i) <==> forall|j: int|
                i < j < messages.len() ==> !((#[trigger] messages[j]) is Chat && messages[j]->role
                    == "assistant"@));
        }
    }
}

/// What a rewritten reply is delivered as: its new text, which is its old one
/// where nothing was added or dropped.
pub proof fn law_what_is_delivered(
    old_text: Seq<char>,
    authoritative: Seq<Seq<char>>,
    prepend: bool,
    files: Seq<Seq<char>>,
)
    ensures
        text_after(old_text, rewritten(old_text, authoritative, prepend, files)) == rewritten(
            old_text,
            authoritative,
            prepend,
            files,
        ).text,
{
    law_unchanged_reply_is_verbatim(old_text, authoritative, prepend, files);
}

/// What markers, rewrites and messages say is what they hold.
pub proof fn law_messages_say_what_they_hold(
    marker: Marker,
    markers: Seq<Marker>,
    rewrite: Rewrite,
    message: ConversationMessage,
    messages: Seq<ConversationMessage>,
    k: int,
)
    ensures
        marker@.start == marker.start && marker@.end == marker.end && marker@.payload
            == marker.payload@,
        spans_of(markers).len() == markers.len(),
        0 <= k < markers.len() ==> spans_of(markers)[k] == markers[k]@,
        rewrite@.text == rewrite.text@,
        rewrite@.added == rewrite.added@.map_values(|t: String| t@),
        rewrite@.kept == rewrite.kept@.map_values(|t: String| t@),
        rewrite@.dropped == rewrite.dropped@.map_values(|t: String| t@),
        message matches ConversationMessage::Chat(chat) ==> message@ == (MessageView::Chat {
            role: chat.role@,
            content: chat.content@,
        }),
        message matches ConversationMessage::ToolResults(results) ==> message@ is ToolResults
            && message@->ToolResults_0.len() == results@.len() && (0 <= k < results@.len()
            ==> message@->ToolResults_0[k] == results@[k].content@),
        message is Other ==> message@ is Other,
        message_views(messages).len() == messages.len(),
        0 <= k < messages.len() ==> message_views(messages)[k] == messages[k]@,
{
}

}
