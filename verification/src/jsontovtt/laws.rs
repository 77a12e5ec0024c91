//! What holds of fragments as a whole.
use super::{CueView, FragmentEnd, VttBufferView, VttView};
use crate::ttutils::{ChunkView, LineView};
use vstd::prelude::*;

verus! {

/// The texts of all pieces of a line, one behind the other.
pub open spec fn whole_line(line: LineView) -> Seq<char> {
    Seq::new(line.chunks.len(), |i: int| line.chunks[i].text).flatten()
}

/// All lines, each one with a line end behind it.
pub open spec fn whole_text(lines: Seq<LineView>) -> Seq<char> {
    Seq::new(lines.len(), |i: int| whole_line(lines[i]).push('\n')).flatten()
}

proof fn lemma_flatten_push(parts: Seq<Seq<char>>, last: Seq<char>)
    ensures
        parts.push(last).flatten() == parts.flatten() + last,
{
    parts.lemma_flatten_and_flatten_alt_are_equivalent();
    parts.push(last).lemma_flatten_and_flatten_alt_are_equivalent();
    assert(parts.push(last).drop_last() =~= parts);
}

proof fn lemma_chunks(chunks: Seq<ChunkView>, n: int)
    requires
        0 <= n <= chunks.len(),
    ensures
        super::chunks_text(chunks, n) == Seq::new(n as nat, |i: int| chunks[i].text).flatten(),
    decreases n,
{
    let parts = Seq::new(n as nat, |i: int| chunks[i].text);
    if n > 0 {
        let before = Seq::new((n - 1) as nat, |i: int| chunks[i].text);
        lemma_chunks(chunks, n - 1);
        lemma_flatten_push(before, chunks[n - 1].text);
        assert(before.push(chunks[n - 1].text) =~= parts);
    } else {
        assert(parts =~= Seq::<Seq<char>>::empty());
    }
}

proof fn lemma_lines(lines: Seq<LineView>, n: int)
    requires
        0 <= n <= lines.len(),
    ensures
        super::lines_text(lines, n) == whole_text(lines.take(n)),
    decreases n,
{
    let taken = lines.take(n);
    let parts = Seq::new(taken.len(), |i: int| whole_line(taken[i]).push('\n'));
    if n > 0 {
        let fewer = lines.take(n - 1);
        let before = Seq::new(fewer.len(), |i: int| whole_line(fewer[i]).push('\n'));
        let last = whole_line(lines[n - 1]).push('\n');
        lemma_lines(lines, n - 1);
        lemma_chunks(lines[n - 1].chunks, lines[n - 1].chunks.len() as int);
        lemma_flatten_push(before, last);
        assert(before.push(last) =~= parts);
    } else {
        assert(parts =~= Seq::<Seq<char>>::empty());
    }
}

/// The text of a cue is that of all its lines, in order: the pieces of each line one behind the
/// other, and then a line end.
pub proof fn law_all_lines_are_written(lines: Seq<LineView>)
    ensures
        super::lines_text(lines, lines.len() as int) == whole_text(lines),
{
    lemma_lines(lines, lines.len() as int);
    assert(lines.take(lines.len() as int) =~= lines);
}

/// The text of some lines followed by others is the text of the ones followed by that of the
/// others. One line alone gives its pieces and a line end.
pub proof fn law_lines_add_up(a: Seq<LineView>, b: Seq<LineView>, line: LineView)
    ensures
        super::lines_text(a + b, (a + b).len() as int) == super::lines_text(a, a.len() as int)
            + super::lines_text(b, b.len() as int),
        super::lines_text(seq![line], 1) == whole_line(line).push('\n'),
    decreases b.len(),
{
    law_all_lines_are_written(seq![line]);
    let alone = Seq::new(seq![line].len(), |i: int| whole_line(seq![line][i]).push('\n'));
    assert(alone =~= seq![whole_line(line).push('\n')]);
    alone.lemma_flatten_one_element();
    if b.len() == 0 {
        assert(a + b =~= a);
        assert(super::lines_text(b, 0) =~= Seq::<char>::empty());
    } else {
        let c = b.drop_last();
        law_lines_add_up(a, c, line);
        law_all_lines_are_written(a + b);
        law_all_lines_are_written(a + c);
        law_all_lines_are_written(b);
        law_all_lines_are_written(c);
        lemma_whole_push(a + c, b.last());
        lemma_whole_push(c, b.last());
        assert((a + c).push(b.last()) =~= a + b);
        assert(c.push(b.last()) =~= b);
    }
}

proof fn lemma_whole_push(lines: Seq<LineView>, line: LineView)
    ensures
        whole_text(lines.push(line)) == whole_text(lines) + whole_line(line).push('\n'),
{
    let before = Seq::new(lines.len(), |i: int| whole_line(lines[i]).push('\n'));
    let all = lines.push(line);
    lemma_flatten_push(before, whole_line(line).push('\n'));
    assert(before.push(whole_line(line).push('\n')) =~= Seq::new(
        all.len(),
        |i: int| whole_line(all[i]).push('\n'),
    ));
}

/// What goes out for a text that is shown from one time to another.
pub open spec fn shown_from_to(text: Seq<char>, from: u64, to: u64) -> VttBufferView {
    VttBufferView {
        pts: from,
        duration: Some((to - from) as u64),
        is_header: false,
        data: crate::clock::time_text(from as int, '.') + " --> "@ + crate::clock::time_text(
            to as int,
            '.',
        ) + seq!['\n'] + text + seq!['\n'],
    }
}

/// Whether a cue goes into the fragment for a request.
pub open spec fn belongs(at: FragmentEnd, time: Option<u64>, request: u64) -> bool {
    at.running_time is None || time is None || time->0 <= request
}

proof fn lemma_count(times: Seq<Option<u64>>, limit: Option<u64>, n: int)
    requires
        0 <= n <= times.len(),
        forall|j: int| 0 <= j < n ==> super::is_due(#[trigger] times[j], limit),
    ensures
        n <= super::due_count(times, limit) <= times.len(),
    decreases times.len(),
{
    if times.len() > 0 && super::is_due(times[0], limit) {
        let rest = times.drop_first();
        let m = if n > 0 {
            n - 1
        } else {
            0
        };
        assert forall|j: int| 0 <= j < m implies super::is_due(#[trigger] rest[j], limit) by {
            assert(rest[j] == times[j + 1]);
        }
        lemma_count(rest, limit, m);
    } else if n > 0 {
        assert(super::is_due(times[0], limit));
    }
}

proof fn lemma_count_due(times: Seq<Option<u64>>, limit: Option<u64>)
    ensures
        0 <= super::due_count(times, limit) <= times.len(),
        forall|j: int|
            0 <= j < super::due_count(times, limit) ==> super::is_due(#[trigger] times[j], limit),
        super::due_count(times, limit) < times.len() ==> !super::is_due(
            times[super::due_count(times, limit)],
            limit,
        ),
    decreases times.len(),
{
    if times.len() > 0 && super::is_due(times[0], limit) {
        let rest = times.drop_first();
        lemma_count_due(rest, limit);
        assert forall|j: int| 0 <= j < super::due_count(times, limit) implies super::is_due(
            #[trigger] times[j],
            limit,
        ) by {
            if j > 0 {
                assert(rest[j - 1] == times[j]);
            }
        }
    }
}

proof fn lemma_fragment_holds(cues: Seq<CueView>, count: int, end: int, n: int, i: int)
    requires
        0 <= i < n <= count <= cues.len(),
        forall|j: int, k: int|
            0 <= j < count && k == j + 1 && k < cues.len() ==> (#[trigger] cues[j]).pts <= (
            #[trigger] cues[k]).pts,
        cues[count - 1].pts <= end <= u64::MAX,
    ensures
        ({
            let to = if i + 1 == count {
                end
            } else {
                cues[i + 1].pts as int
            };
            cues[i].lines.lines.len() > 0 && cues[i].pts as int / 1_000_000 != to / 1_000_000
                ==> super::fragment(cues, count, end, n).contains(
                shown_from_to(whole_text(cues[i].lines.lines), cues[i].pts, to as u64),
            )
        }),
    decreases n,
{
    let to = if i + 1 == count {
        end
    } else {
        cues[i + 1].pts as int
    };
    let b = shown_from_to(whole_text(cues[i].lines.lines), cues[i].pts, to as u64);
    if cues[i].lines.lines.len() > 0 && cues[i].pts as int / 1_000_000 != to / 1_000_000 {
        let before = super::fragment(cues, count, end, n - 1);
        let all = super::fragment(cues, count, end, n);
        if i == n - 1 {
            let lines = cues[i].lines.lines;
            law_all_lines_are_written(lines);
            lemma_text_is_not_empty(lines);
            let duration = (to - cues[i].pts) as u64;
            let text = super::lines_text(lines, lines.len() as int);
            assert(super::cue_at(cues[i].pts, duration, text)->0.data =~= b.data);
            assert(super::cue_buffers(cues[i], duration) =~= seq![b]);
            assert(all[before.len() as int] == b);
        } else {
            lemma_fragment_holds(cues, count, end, n - 1, i);
            let k = choose|k: int| 0 <= k < before.len() && before[k] == b;
            assert(all[k] == b);
        }
    }
}

proof fn lemma_text_is_not_empty(lines: Seq<LineView>)
    requires
        lines.len() > 0,
    ensures
        super::lines_text(lines, lines.len() as int).len() > 0,
{
}

proof fn lemma_fragment_is_of_cues(cues: Seq<CueView>, count: int, end: int, n: int, k: int)
    requires
        0 <= n <= count <= cues.len(),
        0 <= k < super::fragment(cues, count, end, n).len(),
        forall|j: int, i: int|
            0 <= j < count && i == j + 1 && i < cues.len() ==> (#[trigger] cues[j]).pts <= (
            #[trigger] cues[i]).pts,
        cues[count - 1].pts <= end <= u64::MAX,
    ensures
        exists|i: int|
            0 <= i < n && super::fragment(cues, count, end, n)[k] == shown_from_to(
                whole_text(#[trigger] cues[i].lines.lines),
                cues[i].pts,
                if i + 1 == count {
                    end as u64
                } else {
                    cues[i + 1].pts
                },
            ),
    decreases n,
{
    if n > 0 {
        let before = super::fragment(cues, count, end, n - 1);
        if k < before.len() {
            lemma_fragment_is_of_cues(cues, count, end, n - 1, k);
        } else {
            let i = n - 1;
            let to = if i + 1 == count {
                end as u64
            } else {
                cues[i + 1].pts
            };
            let lines = cues[i].lines.lines;
            law_all_lines_are_written(lines);
            let text = super::lines_text(lines, lines.len() as int);
            let duration = (to - cues[i].pts) as u64;
            let b = shown_from_to(whole_text(lines), cues[i].pts, to);
            assert(super::cue_at(cues[i].pts, duration, text)->0.data =~= b.data);
            assert(super::fragment(cues, count, end, n)[k] == super::cue_buffers(
                cues[i],
                duration,
            )[k - before.len()]);
            assert(super::fragment(cues, count, end, n)[k] == b);
        }
    }
}

/// A fragment shows each cue that begins up to the request, whole, from its own time until the next
/// one begins or the fragment ends, if that takes a millisecond. It shows nothing else. The header
/// of the next fragment comes last, where its position is known.
pub proof fn law_fragment_shows_all_cues(view: VttView, at: FragmentEnd, times: Seq<Option<u64>>)
    requires
        times.len() == view.pending.len(),
        view.next_request(at.running_time) is Some,
        view.can_drain(at, times),
    ensures
        ({
            let request = view.next_request(at.running_time)->0.running_time;
            let out = view.drain(at, times).1;
            let end = if at.running_time is None {
                view.last_pts->0
            } else if at.position is Some {
                at.position->0
            } else {
                view.segment.stop->0
            };
            &&& forall|i: int|
                0 <= i < view.pending.len() && (forall|j: int|
                    0 <= j <= i ==> belongs(at, #[trigger] times[j], request)) ==> ({
                    let cue = #[trigger] view.pending[i];
                    let to = if i + 1 < view.pending.len() && belongs(at, times[i + 1], request) {
                        view.pending[i + 1].pts
                    } else {
                        end
                    };
                    cue.lines.lines.len() > 0 && cue.pts / 1_000_000 != to / 1_000_000
                        ==> out.contains(shown_from_to(whole_text(cue.lines.lines), cue.pts, to))
                })
            &&& forall|k: int|
                0 <= k < out.len() && !(#[trigger] out[k]).is_header ==> exists|i: int, to: u64|
                    0 <= i < view.pending.len() && belongs(at, times[i], request)
                        && #[trigger] shown_from_to(
                        whole_text(view.pending[i].lines.lines),
                        view.pending[i].pts,
                        to,
                    ) == out[k]
            &&& forall|k: int|
                0 <= k < out.len() && (#[trigger] out[k]).is_header ==> k == out.len() - 1
                    && out[k].data == "WEBVTT\n\n"@ && Some(out[k].pts) == at.position
            &&& at.position is Some ==> out.len() > 0 && out.last().is_header
        }),
{
    let request = view.next_request(at.running_time)->0.running_time;
    let limit = if at.running_time is None {
        None
    } else {
        Some(request)
    };
    let count = view.count(at, times);
    let cues = view.pending;
    let (after, out) = view.drain(at, times);
    let end = view.end(at)->0;
    let parts = super::fragment(cues, count, end as int, count);
    lemma_count_due(times, limit);
    assert forall|i: int|
        0 <= i < view.pending.len() && (forall|j: int|
            0 <= j <= i ==> belongs(at, #[trigger] times[j], request)) implies ({
        let cue = #[trigger] view.pending[i];
        let to = if i + 1 < view.pending.len() && belongs(at, times[i + 1], request) {
            view.pending[i + 1].pts
        } else {
            end
        };
        cue.lines.lines.len() > 0 && cue.pts / 1_000_000 != to / 1_000_000 ==> out.contains(
            shown_from_to(whole_text(cue.lines.lines), cue.pts, to),
        )
    }) by {
        let cue = view.pending[i];
        let to = if i + 1 < view.pending.len() && belongs(at, times[i + 1], request) {
            view.pending[i + 1].pts
        } else {
            end
        };
        assert forall|j: int| 0 <= j < i + 1 implies super::is_due(#[trigger] times[j], limit) by {
            assert(belongs(at, times[j], request));
        }
        lemma_count(times, limit, i + 1);
        if i + 1 < count {
            assert(super::is_due(times[i + 1], limit));
        }
        lemma_fragment_holds(cues, count, end as int, count, i);
        if cue.lines.lines.len() > 0 && cue.pts / 1_000_000 != to / 1_000_000 {
            let b = shown_from_to(whole_text(cue.lines.lines), cue.pts, to);
            let k = choose|k: int| 0 <= k < parts.len() && parts[k] == b;
            assert(out[k] == b);
        }
    }
    assert forall|k: int| 0 <= k < out.len() && !(#[trigger] out[k]).is_header implies exists|
        i: int,
        to: u64,
    |
        0 <= i < view.pending.len() && belongs(at, times[i], request) && #[trigger] shown_from_to(
            whole_text(view.pending[i].lines.lines),
            view.pending[i].pts,
            to,
        ) == out[k] by {
        assert(out[k] == parts[k]);
        lemma_fragment_is_of_cues(cues, count, end as int, count, k);
        let i = choose|i: int|
            0 <= i < count && parts[k] == shown_from_to(
                whole_text(#[trigger] cues[i].lines.lines),
                cues[i].pts,
                if i + 1 == count {
                    end
                } else {
                    cues[i + 1].pts
                },
            );
        assert(super::is_due(times[i], limit));
    }
    assert forall|k: int| 0 <= k < out.len() && (#[trigger] out[k]).is_header implies k
        == out.len() - 1 && out[k].data == "WEBVTT\n\n"@ && Some(out[k].pts) == at.position by {
        if k < parts.len() {
            assert(out[k] == parts[k]);
            lemma_fragment_is_of_cues(cues, count, end as int, count, k);
        }
    }
}

/// The last cue of a fragment is shown in the next one too, from where the fragment ended, unless
/// nothing comes any more, its line has no time or it was shown for as long as text is shown at
/// most. The cues that do not belong to the fragment wait as they are.
pub proof fn law_cue_is_shown_until_it_times_out(
    view: VttView,
    at: FragmentEnd,
    times: Seq<Option<u64>>,
    count: int,
)
    requires
        times.len() == view.pending.len(),
        view.next_request(at.running_time) is Some,
        view.can_drain(at, times),
        0 < count <= times.len(),
        forall|j: int|
            0 <= j < count ==> belongs(
                at,
                #[trigger] times[j],
                view.next_request(at.running_time)->0.running_time,
            ),
        count < times.len() ==> !belongs(
            at,
            times[count],
            view.next_request(at.running_time)->0.running_time,
        ),
    ensures
        ({
            let after = view.drain(at, times).0;
            let last = view.pending[count - 1];
            let stays = last.line_running_time is Some && at.running_time is Some && (
            view.timeout is None || at.running_time->0 < last.line_running_time->0
                + view.timeout->0);
            &&& stays ==> after.pending.len() == view.pending.len() - count + 1
                && after.pending[0].lines == last.lines && after.pending[0].line_running_time
                == last.line_running_time && Some(after.pending[0].pts) == (if at.position is Some {
                at.position
            } else {
                view.segment.stop
            }) && after.pending.skip(1) == view.pending.skip(count)
            &&& !stays ==> after.pending == view.pending.skip(count)
            &&& after.requests.len() == view.requests.len() - 1
        }),
{
    let limit = if at.running_time is None {
        None
    } else {
        Some(view.next_request(at.running_time)->0.running_time)
    };
    lemma_count_due(times, limit);
    assert forall|j: int| 0 <= j < count implies super::is_due(#[trigger] times[j], limit) by {
        assert(belongs(at, times[j], view.next_request(at.running_time)->0.running_time));
    }
    lemma_count(times, limit, count);
    assert(view.count(at, times) == count);
    let after = view.drain(at, times).0;
    super::fku::law_top_is_latest(view.requests);
    if view.goes_on(view.pending[count - 1], at) {
        assert(after.pending.skip(1) =~= view.pending.skip(count));
    }
}

/// The header comes before anything else, and once.
pub proof fn law_header_comes_first(view: VttView, pts: u64, later: u64)
    ensures
        ({
            let (after, out) = view.initial_header(pts);
            &&& view.need_initial_header ==> (out matches Some(b) && b.is_header && b.pts == pts
                && b.data == "WEBVTT\n\n"@)
            &&& !view.need_initial_header ==> out is None
            &&& after.initial_header(later) == (after, None::<VttBufferView>)
            &&& after.pending == view.pending
            &&& after.requests == view.requests
        }),
{
}

} // verus!
