//! The decisions of rendering a video, millisecond by millisecond: which frame a moment falls
//! in, which hooks fire, which commands a marker runs, which later hooks are dropped, and when
//! a frame is written. The renderer that draws and encodes the frames acts on them.
use vstd::prelude::*;
use crate::text::{push_char, text_eq};

verus! {

/// The frame shown at `ms` milliseconds, at `fps` frames per second.
pub fn frame_at(fps: usize, ms: usize) -> (f: usize)
    requires
        fps * ms <= usize::MAX,
    ensures
        f == fps * ms / 1000,
{
    fps * ms / 1000
}

/// The number of frames of a video of `duration_ms` milliseconds whose rendering starts
/// `start_rendering_at` milliseconds in.
pub fn total_frames(fps: usize, duration_ms: usize, start_rendering_at: usize) -> (n: usize)
    requires
        duration_ms + start_rendering_at <= usize::MAX,
        fps * (duration_ms + start_rendering_at) <= usize::MAX,
    ensures
        n == fps * (duration_ms + start_rendering_at) / 1000,
{
    fps * (duration_ms + start_rendering_at) / 1000
}

/// The largest of the numbers, or none.
pub open spec fn max_of(s: Seq<usize>) -> Option<usize>
    decreases s.len(),
{
    if s.len() == 0 {
        None
    } else {
        match max_of(s.drop_last()) {
            None => Some(s.last()),
            Some(m) => Some(
                if m >= s.last() {
                    m
                } else {
                    s.last()
                },
            ),
        }
    }
}

/// The duration of a video: the override when there is one, else the longest stem, if any.
pub fn duration_ms(duration_override: Option<usize>, stem_durations: &Vec<usize>) -> (d: Option<
    usize,
>)
    ensures
        d == (if duration_override is Some {
            duration_override
        } else {
            max_of(stem_durations@)
        }),
{
    if let Some(duration) = duration_override {
        return Some(duration);
    }
    let mut best: Option<usize> = None;
    let mut i: usize = 0;
    while i < stem_durations.len()
        invariant
            i <= stem_durations@.len(),
            best == max_of(stem_durations@.take(i as int)),
        decreases stem_durations@.len() - i,
    {
        let d = stem_durations[i];
        best = match best {
            None => Some(d),
            Some(m) => Some(
                if m >= d {
                    m
                } else {
                    d
                },
            ),
        };
        proof {
            assert(stem_durations@.take(i + 1).drop_last() =~= stem_durations@.take(i as int));
        }
        i = i + 1;
    }
    proof {
        assert(stem_durations@.take(stem_durations@.len() as int) =~= stem_durations@);
    }
    best
}

/// The hook of `init` fires on the first frame.
pub fn init_fires(frame: usize) -> (r: bool)
    ensures
        r == (frame == 0),
{
    frame == 0
}

/// The hook of `each_beat` fires on a new frame at the start or on a new beat.
pub fn each_beat_fires(
    ms: usize,
    beat: usize,
    frame: usize,
    previous_rendered_beat: usize,
    previous_rendered_frame: usize,
) -> (r: bool)
    ensures
        r == (previous_rendered_frame != frame && (ms == 0 || previous_rendered_beat != beat)),
{
    previous_rendered_frame != frame && (ms == 0 || previous_rendered_beat != beat)
}

/// The hook of `each_frame` fires on every new frame.
pub fn each_frame_fires(frame: usize, previous_rendered_frame: usize) -> (r: bool)
    ensures
        r == (frame != previous_rendered_frame),
{
    frame != previous_rendered_frame
}

/// The hook of `each_n_frame` fires on every new frame whose number is a multiple of `n`.
pub fn each_n_frame_fires(n: usize, frame: usize, previous_rendered_frame: usize) -> (r: bool)
    requires
        n > 0,
    ensures
        r == (frame != previous_rendered_frame && frame % n == 0),
{
    frame != previous_rendered_frame && frame % n == 0
}

/// The hook of `at_frame` fires on the given frame.
pub fn at_frame_fires(at: usize, frame: usize) -> (r: bool)
    ensures
        r == (frame == at),
{
    frame == at
}

/// What `chrono::NaiveDateTime::parse_from_str` reads from `input` with the strftime
/// `format`: the date and time as seconds since the Unix epoch and nanoseconds into the
/// second, or nothing when the text does not match the format or names no full date and
/// time.
pub uninterp spec fn naive_datetime_parse(input: Seq<char>, format: Seq<char>) -> Option<(i64, u32)>;

/// `chrono::NaiveDateTime::parse_from_str`: the date and time read from `input` with
/// `format`, as seconds since the Unix epoch and nanoseconds into the second (which tell
/// date-times apart one for one), or nothing when parsing fails.
#[verifier::external_body]
fn parse_naive_datetime(input: &str, format: &str) -> (r: Option<(i64, u32)>)
    ensures
        r == naive_datetime_parse(input@, format@),
{
    match chrono::NaiveDateTime::parse_from_str(input, format) {
        Ok(t) => Some((t.and_utc().timestamp(), t.and_utc().timestamp_subsec_nanos())),
        Err(_) => None,
    }
}

/// The time named by an `at_timestamp` hook, and whether it is given to the millisecond:
/// read with the first of `%H:%M:%S%.3f`, `%M:%S%.3f`, `%S%.3f` (to the millisecond),
/// `%S`, `%M:%S`, `%H:%M:%S` (to the second) that reads it.
pub open spec fn criteria_time(timestamp: Seq<char>) -> Option<((i64, u32), bool)> {
    if naive_datetime_parse(timestamp, "%H:%M:%S%.3f"@) is Some {
        Some((naive_datetime_parse(timestamp, "%H:%M:%S%.3f"@)->0, true))
    } else if naive_datetime_parse(timestamp, "%M:%S%.3f"@) is Some {
        Some((naive_datetime_parse(timestamp, "%M:%S%.3f"@)->0, true))
    } else if naive_datetime_parse(timestamp, "%S%.3f"@) is Some {
        Some((naive_datetime_parse(timestamp, "%S%.3f"@)->0, true))
    } else if naive_datetime_parse(timestamp, "%S"@) is Some {
        Some((naive_datetime_parse(timestamp, "%S"@)->0, false))
    } else if naive_datetime_parse(timestamp, "%M:%S"@) is Some {
        Some((naive_datetime_parse(timestamp, "%M:%S"@)->0, false))
    } else if naive_datetime_parse(timestamp, "%H:%M:%S"@) is Some {
        Some((naive_datetime_parse(timestamp, "%H:%M:%S"@)->0, false))
    } else {
        None
    }
}

/// Whether an `at_timestamp` hook fires on a new frame: the time it names, read again in full
/// (`%H:%M:%S%.3f` to the millisecond, `%H:%M:%S` to the second), is that time; nothing when
/// no format reads the timestamp or the full reading fails.
pub open spec fn timestamp_moment(timestamp: Seq<char>) -> Option<bool> {
    match criteria_time(timestamp) {
        None => None,
        Some((criteria, milliseconds)) => match naive_datetime_parse(
            timestamp,
            if milliseconds {
                "%H:%M:%S%.3f"@
            } else {
                "%H:%M:%S"@
            },
        ) {
            Some(current) => Some(current == criteria),
            None => None,
        },
    }
}

/// The hook of `at_timestamp`: never on a frame already rendered; otherwise whether the
/// timestamp's time, read again in full, is the time it names (see `timestamp_moment`).
/// Nothing comes back where no format reads the timestamp, or reading it in full fails.
pub fn at_timestamp_fires(timestamp: &str, frame: usize, previous_rendered_frame: usize) -> (r:
    Option<bool>)
    ensures
        r == (if frame == previous_rendered_frame {
            Some(false)
        } else {
            timestamp_moment(timestamp@)
        }),
{
    if previous_rendered_frame == frame {
        return Some(false);
    }
    let (criteria, milliseconds) = match parse_naive_datetime(timestamp, "%H:%M:%S%.3f") {
        Some(t) => (t, true),
        None => match parse_naive_datetime(timestamp, "%M:%S%.3f") {
            Some(t) => (t, true),
            None => match parse_naive_datetime(timestamp, "%S%.3f") {
                Some(t) => (t, true),
                None => match parse_naive_datetime(timestamp, "%S") {
                    Some(t) => (t, false),
                    None => match parse_naive_datetime(timestamp, "%M:%S") {
                        Some(t) => (t, false),
                        None => match parse_naive_datetime(timestamp, "%H:%M:%S") {
                            Some(t) => (t, false),
                            None => {
                                return None;
                            },
                        },
                    },
                },
            },
        },
    };
    let full = if milliseconds {
        "%H:%M:%S%.3f"
    } else {
        "%H:%M:%S"
    };
    match parse_naive_datetime(timestamp, full) {
        Some(current) => Some(current.0 == criteria.0 && current.1 == criteria.1),
        None => None,
    }
}

/// The hook of `when_remaining` fires in the last `seconds` seconds of the video (from the
/// start when the video is shorter).
pub fn when_remaining_fires(seconds: usize, ms: usize, duration_ms: usize) -> (r: bool)
    requires
        seconds * 1000 <= usize::MAX,
    ensures
        r == (ms >= (if duration_ms >= seconds * 1000 {
            duration_ms
        } else {
            (seconds * 1000) as usize
        }) - seconds * 1000),
{
    let window = seconds * 1000;
    let end = if duration_ms >= window {
        duration_ms
    } else {
        window
    };
    ms >= end - window
}

/// The text without its leading `c`s.
pub open spec fn without_leading(s: Seq<char>, c: char) -> Seq<char>
    decreases s.len(),
{
    if s.len() > 0 && s[0] == c {
        without_leading(s.drop_first(), c)
    } else {
        s
    }
}

/// The text without the copies of `p` it starts with, one after the other.
pub open spec fn without_prefixes(s: Seq<char>, p: Seq<char>) -> Seq<char>
    decreases s.len(),
{
    if p.len() > 0 && p.len() <= s.len() && s.subrange(0, p.len() as int) == p {
        without_prefixes(s.subrange(p.len() as int, s.len() as int), p)
    } else {
        s
    }
}

/// `p` starts `s`.
pub open spec fn starts_with(s: Seq<char>, p: Seq<char>) -> bool {
    p.len() <= s.len() && s.subrange(0, p.len() as int) == p
}

/// Whether a character has Unicode's `White_Space` property: tab to carriage return, space,
/// next line, no-break space, ogham space mark, the spaces from en quad to hair space, line
/// and paragraph separators, narrow no-break space, medium mathematical space and
/// ideographic space.
pub open spec fn is_white_space(c: char) -> bool {
    let n = c as u32;
    ||| 0x9 <= n <= 0xD
    ||| n == 0x20
    ||| n == 0x85
    ||| n == 0xA0
    ||| n == 0x1680
    ||| 0x2000 <= n <= 0x200A
    ||| n == 0x2028
    ||| n == 0x2029
    ||| n == 0x202F
    ||| n == 0x205F
    ||| n == 0x3000
}

/// The text without its leading white space.
pub open spec fn trimmed_start(s: Seq<char>) -> Seq<char>
    decreases s.len(),
{
    if s.len() > 0 && is_white_space(s[0]) {
        trimmed_start(s.drop_first())
    } else {
        s
    }
}

/// The text without its trailing white space.
pub open spec fn trimmed_end(s: Seq<char>) -> Seq<char>
    decreases s.len(),
{
    if s.len() > 0 && is_white_space(s.last()) {
        trimmed_end(s.drop_last())
    } else {
        s
    }
}

/// The text with leading and trailing white space removed.
pub open spec fn trimmed(s: Seq<char>) -> Seq<char> {
    trimmed_end(trimmed_start(s))
}

/// `str::trim`: the text without its leading and trailing whitespace, whitespace being the
/// characters with Unicode's `White_Space` property (see `is_white_space`), as its
/// documentation says.
#[verifier::external_body]
fn trim_text(s: &str) -> (r: String)
    ensures
        r@ == trimmed(s@),
{
    s.trim().to_string()
}

/// Whether `s` starts with `p`.
fn text_starts_with(s: &str, p: &str) -> (r: bool)
    ensures
        r == starts_with(s@, p@),
{
    let n = p.unicode_len();
    if n > s.unicode_len() {
        return false;
    }
    let mut i: usize = 0;
    while i < n
        invariant
            n == p@.len(),
            n <= s@.len(),
            i <= n,
            forall|k: int| 0 <= k < i ==> s@[k] == p@[k],
        decreases n - i,
    {
        if s.get_char(i) != p.get_char(i) {
            return false;
        }
        i = i + 1;
    }
    assert(s@.subrange(0, n as int) =~= p@);
    true
}

/// The text from the character `from` on.
fn text_from(s: &str, from: usize) -> (r: String)
    requires
        from <= s@.len(),
    ensures
        r@ == s@.subrange(from as int, s@.len() as int),
{
    let mut r = String::new();
    let mut i = from;
    let n = s.unicode_len();
    while i < n
        invariant
            n == s@.len(),
            from <= i <= n,
            r@ == s@.subrange(from as int, i as int),
        decreases n - i,
    {
        crate::text::push_char(&mut r, s.get_char(i));
        assert(s@.subrange(from as int, i + 1) =~= s@.subrange(from as int, i as int).push(
            s@[i as int],
        ));
        i = i + 1;
    }
    r
}

/// The arguments a marker gives a command: for a marker `:` (one or more) followed by a
/// command line that starts with the command's name, the rest of the line once every copy
/// of the name it starts with is removed, trimmed; none otherwise.
pub open spec fn command_arguments_of(marker: Seq<char>, name: Seq<char>) -> Option<Seq<char>> {
    let line = without_leading(marker, ':');
    if marker.len() > 0 && marker[0] == ':' && starts_with(line, name) {
        Some(trimmed(without_prefixes(line, name)))
    } else {
        None
    }
}

/// The arguments that `marker` gives the command `name` (see `command_arguments_of`).
pub fn command_arguments(marker: &str, name: &str) -> (r: Option<String>)
    ensures
        match r {
            Some(args) => command_arguments_of(marker@, name@) == Some(args@),
            None => command_arguments_of(marker@, name@) is None,
        },
{
    let n = marker.unicode_len();
    if n == 0 || marker.get_char(0) != ':' {
        return None;
    }
    let mut start: usize = 0;
    assert(marker@.subrange(0, n as int) =~= marker@);
    while start < n && marker.get_char(start) == ':'
        invariant
            n == marker@.len(),
            start <= n,
            without_leading(marker@, ':') == without_leading(
                marker@.subrange(start as int, n as int),
                ':',
            ),
        decreases n - start,
    {
        assert(marker@.subrange(start as int, n as int).drop_first() =~= marker@.subrange(
            start + 1,
            n as int,
        ));
        start = start + 1;
    }
    let line = text_from(marker, start);
    assert(line@ == without_leading(marker@, ':'));
    if !text_starts_with(line.as_str(), name) {
        return None;
    }
    let k = name.unicode_len();
    let mut rest = line;
    if k > 0 {
        while text_starts_with(rest.as_str(), name)
            invariant
                k == name@.len(),
                k > 0,
                without_prefixes(line@, name@) == without_prefixes(rest@, name@),
            decreases rest@.len(),
        {
            rest = text_from(rest.as_str(), k);
        }
    }
    Some(trim_text(rest.as_str()))
}

/// The commands that `marker` runs, each with its arguments, in the order given.
pub open spec fn commands_run_by(marker: Seq<char>, names: Seq<Seq<char>>) -> Seq<(int, Seq<char>)>
    decreases names.len(),
{
    if names.len() == 0 {
        Seq::empty()
    } else {
        let before = commands_run_by(marker, names.drop_last());
        match command_arguments_of(marker, names.last()) {
            Some(args) => before.push((names.len() - 1, args)),
            None => before,
        }
    }
}

/// The commands that `marker` runs, by index, each with its arguments (see
/// `commands_run_by`).
pub fn commands_to_run(marker: &str, names: &Vec<String>) -> (r: Vec<(usize, String)>)
    ensures
        r@.map_values(|e: (usize, String)| (e.0 as int, e.1@)) == commands_run_by(
            marker@,
            names@.map_values(|n: String| n@),
        ),
{
    let ghost views = names@.map_values(|n: String| n@);
    let mut r: Vec<(usize, String)> = Vec::new();
    let mut i: usize = 0;
    while i < names.len()
        invariant
            i <= names@.len(),
            views == names@.map_values(|n: String| n@),
            r@.map_values(|e: (usize, String)| (e.0 as int, e.1@)) == commands_run_by(
                marker@,
                views.take(i as int),
            ),
        decreases names@.len() - i,
    {
        proof {
            assert(views.take(i + 1).drop_last() =~= views.take(i as int));
            assert(views.take(i + 1).last() == names@[i as int]@);
        }
        let ghost before = r@;
        match command_arguments(marker, names[i].as_str()) {
            Some(args) => {
                r.push((i, args));
                assert(r@.map_values(|e: (usize, String)| (e.0 as int, e.1@)) =~= before.map_values(
                    |e: (usize, String)| (e.0 as int, e.1@),
                ).push((i as int, r@.last().1@)));
            },
            None => {},
        }
        i = i + 1;
    }
    proof {
        assert(views.take(names@.len() as int) =~= views);
    }
    r
}

/// The indices of the later hooks dropped after a moment: those that fired and run once, and
/// those that did not fire and do not run once.
pub open spec fn dropped_hooks(fired: Seq<bool>, once: Seq<bool>) -> Seq<usize>
    decreases fired.len(),
{
    if fired.len() == 0 {
        Seq::empty()
    } else {
        let i = fired.len() - 1;
        let before = dropped_hooks(fired.drop_last(), once);
        if fired[i] == once[i] {
            before.push(i as usize)
        } else {
            before
        }
    }
}

/// The later hooks dropped after a moment (see `dropped_hooks`).
pub fn later_hooks_to_delete(fired: &Vec<bool>, once: &Vec<bool>) -> (r: Vec<usize>)
    requires
        fired@.len() == once@.len(),
    ensures
        r@ == dropped_hooks(fired@, once@),
{
    let mut r: Vec<usize> = Vec::new();
    let mut i: usize = 0;
    while i < fired.len()
        invariant
            i <= fired@.len(),
            fired@.len() == once@.len(),
            r@ == dropped_hooks(fired@.take(i as int), once@),
        decreases fired@.len() - i,
    {
        proof {
            assert(fired@.take(i + 1).drop_last() =~= fired@.take(i as int));
        }
        if fired[i] == once[i] {
            r.push(i);
        }
        i = i + 1;
    }
    proof {
        assert(fired@.take(fired@.len() as int) =~= fired@);
    }
    r
}

/// The items once each index is removed in turn, skipping indices past the end at that
/// point.
pub open spec fn removed_in_turn<T>(items: Seq<T>, indices: Seq<usize>) -> Seq<T>
    decreases indices.len(),
{
    if indices.len() == 0 {
        items
    } else {
        let i = indices[0];
        removed_in_turn(
            if i < items.len() {
                items.remove(i as int)
            } else {
                items
            },
            indices.drop_first(),
        )
    }
}

/// Removes each index in turn (see `removed_in_turn`).
pub fn remove_in_turn<T>(items: &mut Vec<T>, indices: &Vec<usize>)
    ensures
        final(items)@ == removed_in_turn(old(items)@, indices@),
{
    let mut k: usize = 0;
    assert(indices@.skip(0) =~= indices@);
    while k < indices.len()
        invariant
            k <= indices@.len(),
            removed_in_turn(old(items)@, indices@) == removed_in_turn(
                items@,
                indices@.skip(k as int),
            ),
        decreases indices@.len() - k,
    {
        let i = indices[k];
        proof {
            assert(indices@.skip(k as int).drop_first() =~= indices@.skip(k + 1));
            assert(indices@.skip(k as int)[0] == i);
        }
        if i < items.len() {
            let _ = items.remove(i);
        }
        k = k + 1;
    }
    proof {
        assert(indices@.skip(indices@.len() as int) =~= Seq::<usize>::empty());
    }
}

/// Where the rendering stands: the beat and frame last written, and how many frames were.
#[derive(Debug, Clone, Copy, PartialEq, Eq, Structural)]
pub struct RenderProgress {
    pub previous_rendered_beat: usize,
    pub previous_rendered_frame: usize,
    pub written_frames_count: usize,
}

impl RenderProgress {
    /// Nothing written yet.
    pub fn new() -> (p: RenderProgress)
        ensures
            p == (RenderProgress {
                previous_rendered_beat: 0,
                previous_rendered_frame: 0,
                written_frames_count: 0,
            }),
    {
        RenderProgress { previous_rendered_beat: 0, previous_rendered_frame: 0, written_frames_count: 0 }
    }

    /// At a moment of frame `frame` and beat `beat`: a frame is written when the frame
    /// changed, and then becomes the last written, with its beat.
    pub fn after_moment(self, frame: usize, beat: usize) -> (r: (RenderProgress, bool))
        requires
            self.written_frames_count < usize::MAX,
        ensures
            r.1 == (frame != self.previous_rendered_frame),
            r.1 ==> r.0 == (RenderProgress {
                previous_rendered_beat: beat,
                previous_rendered_frame: frame,
                written_frames_count: (self.written_frames_count + 1) as usize,
            }),
            !r.1 ==> r.0 == self,
    {
        if frame != self.previous_rendered_frame {
            (
                RenderProgress {
                    previous_rendered_beat: beat,
                    previous_rendered_frame: frame,
                    written_frames_count: self.written_frames_count + 1,
                },
                true,
            )
        } else {
            (self, false)
        }
    }
}

/// Whether two texts are the same: the hook of `on` fires when the marker of the moment is
/// the hook's marker.
pub fn on_marker_fires(marker: &str, marker_text: &str) -> (r: bool)
    ensures
        r == (marker@ == marker_text@),
{
    text_eq(marker, marker_text)
}

/// The frame shown at `ms` milliseconds, at `fps` frames per second.
pub open spec fn frame_of(fps: usize, ms: int) -> int {
    fps * ms / 1000
}

/// The moments of the first `last` milliseconds at which a frame is written, with the frame:
/// each millisecond from 1 whose frame differs from the one before.
pub open spec fn frame_changes(fps: usize, last: int) -> Seq<(usize, usize)>
    decreases last,
{
    if last <= 0 {
        Seq::empty()
    } else if frame_of(fps, last) != frame_of(fps, last - 1) {
        frame_changes(fps, last - 1).push((last as usize, frame_of(fps, last) as usize))
    } else {
        frame_changes(fps, last - 1)
    }
}

/// At no more than 1000 frames per second, rendering the first `last` milliseconds writes
/// as many frames as the frame number of the last millisecond, `fps * last / 1000` (the
/// count `total_frames` gives).
pub proof fn law_written_frames_count(fps: usize, last: int)
    requires
        fps <= 1000,
        0 <= last,
    ensures
        frame_changes(fps, last).len() == frame_of(fps, last),
    decreases last,
{
    if last > 0 {
        law_written_frames_count(fps, last - 1);
        let a = fps * (last - 1);
        assert(fps * last == fps * (last - 1) + fps) by (nonlinear_arith);
        assert(0 <= fps * (last - 1)) by (nonlinear_arith)
            requires
                last >= 1,
        ;
        assert(a / 1000 <= (a + fps) / 1000 <= a / 1000 + 1) by (nonlinear_arith)
            requires
                0 <= a,
                0 <= fps <= 1000,
        ;
        assert(frame_of(fps, last) == (a + fps) / 1000);
        assert(frame_of(fps, last - 1) == a / 1000);
    } else {
        assert(fps * last == 0) by (nonlinear_arith)
            requires
                last == 0,
        ;
    }
}

/// The schedule of a video's rendering: the milliseconds, from 1 to the duration plus the
/// start, at which a frame is written, and the frame written. A frame is written whenever the
/// moment's frame is not the last one written (the first written being frame 0), which is
/// whenever it differs from the previous millisecond's (see `frame_changes`).
pub fn render_schedule(fps: usize, duration_ms: usize, start_rendering_at: usize) -> (s: Vec<
    (usize, usize),
>)
    requires
        duration_ms + start_rendering_at <= usize::MAX,
        fps * (duration_ms + start_rendering_at) <= usize::MAX,
    ensures
        s@ == frame_changes(fps, duration_ms + start_rendering_at),
{
    let total = duration_ms + start_rendering_at;
    let mut schedule: Vec<(usize, usize)> = Vec::new();
    let mut progress = RenderProgress::new();
    let mut ms: usize = 0;
    while ms < total
        invariant
            ms <= total,
            fps * total <= usize::MAX,
            progress.previous_rendered_frame == frame_of(fps, ms as int),
            progress.written_frames_count == schedule@.len(),
            schedule@.len() <= ms,
            schedule@ == frame_changes(fps, ms as int),
        decreases total - ms,
    {
        ms = ms + 1;
        proof {
            assert(fps * ms <= fps * total) by (nonlinear_arith)
                requires
                    ms <= total,
            ;
        }
        let frame = frame_at(fps, ms);
        let (next, written) = progress.after_moment(frame, 0);
        if written {
            schedule.push((ms, frame));
        }
        progress = next;
    }
    schedule
}

/// A frame is written at millisecond `ms`: its frame differs from the previous
/// millisecond's.
pub open spec fn frame_changes_at(fps: usize, ms: int) -> bool {
    frame_of(fps, ms) != frame_of(fps, ms - 1)
}

/// The arguments the moment at millisecond `ms` is given: the millisecond, its frame, and
/// whether a frame is written then.
pub open spec fn moment_args(fps: usize, ms: usize) -> (usize, usize, bool) {
    (ms, frame_of(fps, ms as int) as usize, frame_changes_at(fps, ms as int))
}

/// The work of the moment at millisecond `ms` may succeed.
pub open spec fn moment_succeeds<E, F: Fn(usize, usize, bool) -> Result<(), E>>(
    moment: F,
    fps: usize,
    ms: usize,
) -> bool {
    exists|o: Result<(), E>| #[trigger] call_ensures(moment, moment_args(fps, ms), o) && o is Ok
}

/// The work of the moment at millisecond `ms` may fail with `e`.
pub open spec fn moment_fails<E, F: Fn(usize, usize, bool) -> Result<(), E>>(
    moment: F,
    fps: usize,
    ms: usize,
    e: E,
) -> bool {
    call_ensures(moment, moment_args(fps, ms), Err(e))
}

/// Renders a video of `duration_ms` milliseconds whose rendering starts
/// `start_rendering_at` milliseconds in, moment by moment: for each millisecond from 1 to
/// the duration plus the start, in order, `moment` runs the moment's hooks and commands and
/// writes the frame when told to, with the millisecond, its frame, and whether a frame is
/// written then (see `render_schedule`). The first error of a moment stops the rendering and
/// is returned; otherwise the number of frames written is: at no more than 1000 frames per
/// second, `fps * (duration_ms + start_rendering_at) / 1000`.
pub fn render_frames<E, F: Fn(usize, usize, bool) -> Result<(), E>>(
    fps: usize,
    duration_ms: usize,
    start_rendering_at: usize,
    moment: F,
) -> (r: Result<usize, E>)
    requires
        duration_ms + start_rendering_at <= usize::MAX,
        fps * (duration_ms + start_rendering_at) <= usize::MAX,
        forall|ms: usize, frame: usize, write: bool| call_requires(moment, (ms, frame, write)),
    ensures
        r matches Ok(n) ==> n == frame_changes(fps, duration_ms + start_rendering_at).len(),
        r matches Ok(n) ==> (fps <= 1000 ==> n == fps * (duration_ms + start_rendering_at) / 1000),
        r matches Ok(n) ==> forall|ms: usize|
            1 <= ms <= duration_ms + start_rendering_at ==> #[trigger] moment_succeeds(
                moment,
                fps,
                ms,
            ),
        r matches Err(e) ==> exists|ms: usize|
            1 <= ms <= duration_ms + start_rendering_at && #[trigger] moment_fails(
                moment,
                fps,
                ms,
                e,
            ),
{
    let total = duration_ms + start_rendering_at;
    let mut progress = RenderProgress::new();
    let mut ms: usize = 0;
    let mut failure: Option<E> = None;
    while ms < total && failure.is_none()
        invariant
            total == duration_ms + start_rendering_at,
            ms <= total,
            fps * total <= usize::MAX,
            forall|m: usize, frame: usize, write: bool| call_requires(moment, (m, frame, write)),
            progress.previous_rendered_frame == frame_of(fps, ms as int),
            progress.written_frames_count == frame_changes(fps, ms as int).len(),
            frame_changes(fps, ms as int).len() <= ms,
            failure is None ==> forall|m: usize|
                1 <= m <= ms ==> #[trigger] moment_succeeds(moment, fps, m),
            failure matches Some(e) ==> exists|m: usize|
                1 <= m <= total && #[trigger] moment_fails(moment, fps, m, e),
        decreases total - ms,
    {
        ms = ms + 1;
        proof {
            assert(fps * ms <= fps * total) by (nonlinear_arith)
                requires
                    ms <= total,
            ;
        }
        let frame = frame_at(fps, ms);
        let (next, written) = progress.after_moment(frame, 0);
        let outcome = moment(ms, frame, written);
        match outcome {
            Ok(()) => {
                assert(moment_args(fps, ms) == (ms, frame, written));
                assert(call_ensures(moment, moment_args(fps, ms), outcome));
            },
            Err(e) => {
                assert(moment_fails(moment, fps, ms, e));
                failure = Some(e);
                assert(moment_fails(moment, fps, ms, failure->0));
            },
        }
        progress = next;
    }
    match failure {
        Some(e) => {
            let r: Result<usize, E> = Err(e);
            assert(r->Err_0 == e);
            assert(exists|m: usize|
                1 <= m <= duration_ms + start_rendering_at && #[trigger] moment_fails(
                    moment,
                    fps,
                    m,
                    r->Err_0,
                ));
            r
        },
        None => {
            proof {
                if fps <= 1000 {
                    law_written_frames_count(fps, total as int);
                }
            }
            Ok(progress.written_frames_count)
        },
    }
}

/// The frames of a rendering are written in order: the milliseconds and the frames of the
/// schedule both increase.
pub proof fn law_schedule_increases(fps: usize, last: int)
    requires
        0 <= last <= usize::MAX,
        fps * last <= usize::MAX,
    ensures
        forall|i: int, j: int|
            0 <= i < j < frame_changes(fps, last).len() ==> frame_changes(fps, last)[i].0
                < frame_changes(fps, last)[j].0 && frame_changes(fps, last)[i].1 < frame_changes(
                fps,
                last,
            )[j].1,
        forall|i: int|
            0 <= i < frame_changes(fps, last).len() ==> frame_changes(fps, last)[i].0 <= last
                && frame_changes(fps, last)[i].1 <= frame_of(fps, last),
    decreases last,
{
    if last > 0 {
        assert(fps * (last - 1) <= fps * last) by (nonlinear_arith)
            requires
                last >= 1,
        ;
        law_schedule_increases(fps, last - 1);
        assert(fps * (last - 1) <= fps * last) by (nonlinear_arith)
            requires
                last >= 1,
        ;
        assert(0 <= fps * (last - 1)) by (nonlinear_arith)
            requires
                last >= 1,
        ;
        vstd::arithmetic::div_mod::lemma_div_is_ordered(fps * (last - 1), fps * last, 1000);
        let before = frame_changes(fps, last - 1);
        let after = frame_changes(fps, last);
        if frame_of(fps, last) != frame_of(fps, last - 1) {
            let x = (last as usize, frame_of(fps, last) as usize);
            assert(after == before.push(x));
            assert(0 <= frame_of(fps, last - 1));
            assert forall|i: int, j: int|
                0 <= i < j < after.len() implies after[i].0 < after[j].0 && after[i].1
                < after[j].1 by {
                if j < before.len() {
                    assert(after[i] == before[i] && after[j] == before[j]);
                } else {
                    assert(after[i] == before[i]);
                    assert(after[j] == x);
                }
            }
            assert forall|i: int| 0 <= i < after.len() implies after[i].0 <= last && after[i].1
                <= frame_of(fps, last) by {
                if i < before.len() {
                    assert(after[i] == before[i]);
                }
            }
        }
    }
}

/// The pieces of `s` between its commas, as `str::split(',')` gives them: one piece more than
/// there are commas, empty pieces included.
pub open spec fn comma_pieces(s: Seq<char>) -> Seq<Seq<char>>
    decreases s.len(),
{
    if s.len() == 0 {
        seq![Seq::<char>::empty()]
    } else {
        let p = comma_pieces(s.drop_last());
        if s.last() == ',' {
            p.push(Seq::<char>::empty())
        } else {
            p.update(p.len() - 1, p.last().push(s.last()))
        }
    }
}

/// The pieces of a comma-separated list, as `str::split(',')` gives them (see
/// `comma_pieces`).
pub fn split_commas(s: &str) -> (v: Vec<String>)
    ensures
        v@.map_values(|x: String| x@) == comma_pieces(s@),
{
    let n = s.unicode_len();
    let mut pieces: Vec<String> = Vec::new();
    let mut current = String::new();
    let mut i: usize = 0;
    assert(s@.subrange(0, 0) =~= Seq::<char>::empty());
    assert(pieces@.map_values(|x: String| x@).push(current@) =~= comma_pieces(Seq::<char>::empty()));
    while i < n
        invariant
            n == s@.len(),
            i <= n,
            pieces@.map_values(|x: String| x@).push(current@) == comma_pieces(s@.subrange(0, i as int)),
        decreases n - i,
    {
        let c = s.get_char(i);
        let ghost before = pieces@.map_values(|x: String| x@);
        let ghost cur = current@;
        assert(s@.subrange(0, i + 1).drop_last() =~= s@.subrange(0, i as int));
        assert(s@.subrange(0, i + 1).last() == c);
        if c == ',' {
            let done = current;
            current = String::new();
            pieces.push(done);
            assert(pieces@.map_values(|x: String| x@) =~= before.push(cur));
            assert(pieces@.map_values(|x: String| x@).push(current@) =~= before.push(cur).push(
                Seq::<char>::empty(),
            ));
        } else {
            push_char(&mut current, c);
            assert(pieces@.map_values(|x: String| x@) =~= before);
            assert(before.push(cur).update(before.len() as int, cur.push(c)) =~= before.push(
                cur.push(c),
            ));
        }
        i = i + 1;
    }
    let ghost before = pieces@.map_values(|x: String| x@);
    pieces.push(current);
    assert(pieces@.map_values(|x: String| x@) =~= before.push(
        pieces@[pieces@.len() - 1]@,
    ));
    assert(s@.subrange(0, n as int) =~= s@);
    pieces
}

/// One of the stems named in the comma-separated list `stems` (each name trimmed) is among
/// `names`.
pub open spec fn names_any(stems: Seq<char>, names: Seq<String>) -> bool {
    exists|i: int, j: int|
        0 <= i < comma_pieces(stems).len() && 0 <= j < names.len() && #[trigger] trimmed(
            comma_pieces(stems)[i],
        ) == #[trigger] names[j]@
}

/// Whether one of the stems named in the comma-separated list `stems` (each name trimmed)
/// is among `names`: the hook of `on_note` fires when one of them has a note starting, given
/// the stems with a note starting, and the hook of `on_note_end` when one has a note
/// ending, given those.
pub fn stem_list_includes(stems: &str, names: &Vec<String>) -> (r: bool)
    ensures
        r == names_any(stems@, names@),
{
    let pieces = split_commas(stems);
    let ghost views = pieces@.map_values(|x: String| x@);
    let mut i: usize = 0;
    while i < pieces.len()
        invariant
            i <= pieces@.len(),
            views == pieces@.map_values(|x: String| x@),
            views == comma_pieces(stems@),
            forall|a: int, b: int|
                0 <= a < i && 0 <= b < names@.len() ==> trimmed(views[a]) != names@[b]@,
        decreases pieces@.len() - i,
    {
        let name = trim_text(pieces[i].as_str());
        assert(views[i as int] == pieces@[i as int]@);
        let mut j: usize = 0;
        while j < names.len()
            invariant
                i < pieces@.len(),
                j <= names@.len(),
                name@ == trimmed(views[i as int]),
                views == pieces@.map_values(|x: String| x@),
                views == comma_pieces(stems@),
                forall|a: int, b: int|
                    0 <= a < i && 0 <= b < names@.len() ==> trimmed(views[a]) != names@[b]@,
                forall|b: int| 0 <= b < j ==> trimmed(views[i as int]) != names@[b]@,
            decreases names@.len() - j,
        {
            if text_eq(name.as_str(), names[j].as_str()) {
                assert(trimmed(comma_pieces(stems@)[i as int]) == names@[j as int]@);
                return true;
            }
            j = j + 1;
        }
        i = i + 1;
    }
    false
}

} // verus!
