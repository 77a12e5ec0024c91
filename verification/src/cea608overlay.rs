//! Shows captions of line 21 over video.
use crate::ccutils::{extract_cdp, CaptionType, ParseError};
use crate::cea608::{Channel, InvalidParity};
use crate::cea608utils::{Cea608Renderer, Rectangle};
use vstd::prelude::*;

verus! {

/// The pairs that are to be shown, and the field that they come from.
#[verifier::ext_equal]
pub struct Picked {
    pub selected: Option<u8>,
    pub pairs: Seq<(u8, u8)>,
    /// Whether more may follow.
    pub more: bool,
}

impl Picked {
    /// A pair of the given field came. The first field that comes is chosen, if none was.
    pub open spec fn offer(&self, field: u8, pair: (u8, u8)) -> Picked {
        let selected = match self.selected {
            Some(f) => f,
            None => field,
        };
        Picked {
            selected: Some(selected),
            pairs: if selected == field {
                self.pairs.push(pair)
            } else {
                self.pairs
            },
            ..*self
        }
    }

    /// Nothing came yet.
    pub open spec fn start(selected: Option<u8>) -> Picked {
        Picked { selected, pairs: Seq::empty(), more: true }
    }
}

/// The pairs of the first `n` triples of caption data. Those that are not valid are passed over,
/// and there are none behind the first triple of another kind.
pub open spec fn cc_data_pairs(data: Seq<u8>, selected: Option<u8>, n: int) -> Picked
    decreases n,
{
    if n <= 0 {
        Picked::start(selected)
    } else {
        let before = cc_data_pairs(data, selected, n - 1);
        let head = data[3 * (n - 1)];
        if !before.more || head & 0x04 != 0x04 {
            before
        } else if head & 0x03 == 0 || head & 0x03 == 1 {
            before.offer(head & 0x03, (data[3 * (n - 1) + 1], data[3 * (n - 1) + 2]))
        } else {
            Picked { more: false, ..before }
        }
    }
}

/// The pairs of the first `n` triples, of which the highest bit tells the field.
pub open spec fn s334_1a_pairs(data: Seq<u8>, selected: Option<u8>, n: int) -> Picked
    decreases n,
{
    if n <= 0 {
        Picked::start(selected)
    } else {
        s334_1a_pairs(data, selected, n - 1).offer(
            if data[3 * (n - 1)] >= 0x80 {
                0
            } else {
                1
            },
            (data[3 * (n - 1) + 1], data[3 * (n - 1) + 2]),
        )
    }
}

/// The pairs of a field.
pub open spec fn raw_pairs(data: Seq<u8>) -> Seq<(u8, u8)> {
    Seq::new((data.len() / 2) as nat, |i: int| (data[2 * i], data[2 * i + 1]))
}

/// Why there are no pairs.
#[derive(Debug)]
pub enum CaptionError {
    /// The caption distribution packet is none.
    Cdp(ParseError),
    /// A byte is missing.
    Odd,
}

/// The pairs that captions hold, and the field that is chosen then.
pub open spec fn caption_pairs(kind: CaptionType, data: Seq<u8>, selected: Option<u8>) -> Picked {
    match kind {
        CaptionType::Cea708Cdp => {
            let captions = crate::ccutils::cdp_cc_data(data);
            cc_data_pairs(captions, selected, captions.len() as int / 3)
        },
        CaptionType::Cea708Raw => cc_data_pairs(data, selected, data.len() as int / 3),
        CaptionType::Cea608S3341a => s334_1a_pairs(data, selected, data.len() as int / 3),
        CaptionType::Cea608Raw => Picked { selected, pairs: raw_pairs(data), more: true },
        CaptionType::Other => Picked::start(selected),
    }
}

/// Captions over video.
pub struct Cea608Overlay {
    pub renderer: Cea608Renderer,
    /// What is shown.
    pub composition: Option<Rectangle>,
    /// Whether what is shown is attached to the video frames instead of being drawn on them.
    pub attach: bool,
    pub selected_field: Option<u8>,
    pub last_cc_pts: Option<u64>,
    pub timeout: Option<u64>,
}

impl Cea608Overlay {
    /// Whether nothing but the chosen field differs.
    pub open spec fn same_but_field(&self, other: Self) -> bool {
        &&& self.renderer == other.renderer
        &&& self.composition == other.composition
        &&& self.attach == other.attach
        &&& self.last_cc_pts == other.last_cc_pts
        &&& self.timeout == other.timeout
    }

    /// Whether neither settings nor the chosen field differ.
    pub open spec fn same_settings(&self, other: Self) -> bool {
        &&& self.attach == other.attach
        &&& self.selected_field == other.selected_field
        &&& self.timeout == other.timeout
    }

    /// Nothing is shown yet.
    pub fn new() -> (r: Self)
        ensures
            r.renderer.wf(),
            r.renderer.is_new(),
            !r.renderer.black_background,
            r.composition is None,
            !r.attach,
            r.selected_field is None,
            r.last_cc_pts is None,
            r.timeout is None,
    {
        Cea608Overlay {
            renderer: Cea608Renderer::new(),
            composition: None,
            attach: false,
            selected_field: None,
            last_cc_pts: None,
            timeout: None,
        }
    }

    /// Takes what was agreed on: whether what is shown can be attached, and the size of the video,
    /// with the width of the widest line in it.
    pub fn negotiate(
        &mut self,
        upstream_has_meta: bool,
        downstream_accepts_meta: bool,
        width: u32,
        height: u32,
        max_layout_width: i32,
    )
        requires
            old(self).renderer.wf(),
            width <= i32::MAX,
            height <= i32::MAX,
            0 <= max_layout_width,
        ensures
            final(self).renderer.wf(),
            final(self).attach == (upstream_has_meta || downstream_accepts_meta),
            final(self).renderer.video_width == width,
            final(self).renderer.video_height == height,
            final(self).renderer.frame@ == old(self).renderer.frame@.set_channel(Channel::One),
            final(self).renderer.state == old(self).renderer.state,
            final(self).renderer.black_background == old(self).renderer.black_background,
            ({
                let is_same = width == old(self).renderer.video_width && height == old(
                    self,
                ).renderer.video_height;
                &&& final(self).renderer.left_alignment == if is_same {
                    old(self).renderer.left_alignment as int
                } else {
                    crate::cea608utils::half(width - max_layout_width) + width as int / 10
                }
                &&& final(self).renderer.rectangle == if is_same
                    && old(self).renderer.frame@.channel == Some(Channel::One) {
                    old(self).renderer.rectangle
                } else {
                    None
                }
            }),
            final(self).composition == old(self).composition,
            final(self).selected_field == old(self).selected_field,
            final(self).last_cc_pts == old(self).last_cc_pts,
            final(self).timeout == old(self).timeout,
    {
        self.attach = upstream_has_meta || downstream_accepts_meta;
        self.renderer.set_video_size(width, height, max_layout_width);
        self.renderer.set_channel(Channel::One);
    }

    fn offer(&mut self, field: u8, b0: u8, b1: u8, pairs: &mut Vec<(u8, u8)>)
        ensures
            final(self).same_but_field(*old(self)),
            forall|more: bool|
                (#[trigger] Picked {
                    selected: old(self).selected_field,
                    pairs: old(pairs)@,
                    more,
                }.offer(field, (b0, b1))) == (Picked {
                    selected: final(self).selected_field,
                    pairs: final(pairs)@,
                    more,
                }),
    {
        if self.selected_field.is_none() {
            self.selected_field = Some(field);
        }
        if let Some(selected) = self.selected_field {
            if selected == field {
                pairs.push((b0, b1));
            }
        }
    }

    fn decode_cc_data(&mut self, data: &[u8]) -> (r: Vec<(u8, u8)>)
        ensures
            ({
                let all = cc_data_pairs(data@, old(self).selected_field, data@.len() as int / 3);
                r@ == all.pairs && final(self).selected_field == all.selected
            }),
            final(self).same_but_field(*old(self)),
    {
        let mut pairs: Vec<(u8, u8)> = Vec::new();
        let n: usize = data.len() / 3;
        let mut i: usize = 0;
        let mut more: bool = true;
        let ghost selected = self.selected_field;
        assert(pairs@ =~= Seq::<(u8, u8)>::empty());
        while i < n && more
            invariant
                n == data@.len() / 3,
                data@.len() <= usize::MAX,
                i <= n,
                self.same_but_field(*old(self)),
                selected == old(self).selected_field,
                cc_data_pairs(data@, selected, i as int) == (Picked {
                    selected: self.selected_field,
                    pairs: pairs@,
                    more,
                }),
            decreases n - i,
        {
            let head: u8 = data[3 * i];
            let kind: u8 = head & 0x03;
            if head & 0x04 == 0x04 {
                if kind == 0 || kind == 1 {
                    self.offer(kind, data[3 * i + 1], data[3 * i + 2], &mut pairs);
                } else {
                    more = false;
                }
            }
            i += 1;
        }
        proof {
            if i < n {
                lemma_no_more(data@, selected, i as int, n as int);
            }
        }
        pairs
    }

    fn decode_s334_1a(&mut self, data: &[u8]) -> (r: Vec<(u8, u8)>)
        ensures
            ({
                let all = s334_1a_pairs(data@, old(self).selected_field, data@.len() as int / 3);
                r@ == all.pairs && final(self).selected_field == all.selected
            }),
            final(self).same_but_field(*old(self)),
    {
        let mut pairs: Vec<(u8, u8)> = Vec::new();
        let n: usize = data.len() / 3;
        let mut i: usize = 0;
        let ghost selected = self.selected_field;
        assert(pairs@ =~= Seq::<(u8, u8)>::empty());
        while i < n
            invariant
                n == data@.len() / 3,
                data@.len() <= usize::MAX,
                i <= n,
                self.same_but_field(*old(self)),
                selected == old(self).selected_field,
                s334_1a_pairs(data@, selected, i as int) == (Picked {
                    selected: self.selected_field,
                    pairs: pairs@,
                    more: true,
                }),
            decreases n - i,
        {
            let field: u8 = if data[3 * i] >= 0x80 {
                0
            } else {
                1
            };
            self.offer(field, data[3 * i + 1], data[3 * i + 2], &mut pairs);
            i += 1;
        }
        pairs
    }

    /// Reads captions that come with a video frame: the pairs of the chosen field. The first field
    /// that comes is chosen, if none was.
    pub fn read_captions(&mut self, kind: CaptionType, data: &[u8]) -> (r: Result<
        Vec<(u8, u8)>,
        CaptionError,
    >)
        ensures
            final(self).same_but_field(*old(self)),
            match r {
                Ok(pairs) => {
                    let all = caption_pairs(kind, data@, old(self).selected_field);
                    &&& kind == CaptionType::Cea708Cdp ==> crate::ccutils::cdp_error(data@) is None
                    &&& kind == CaptionType::Cea608Raw ==> data@.len() % 2 == 0
                    &&& pairs@ == all.pairs
                    &&& final(self).selected_field == all.selected
                },
                Err(CaptionError::Cdp(e)) => kind == CaptionType::Cea708Cdp
                    && crate::ccutils::cdp_error(data@) == Some(e@) && final(self).selected_field
                    == old(self).selected_field,
                Err(CaptionError::Odd) => kind == CaptionType::Cea608Raw && data@.len() % 2 != 0
                    && final(self).selected_field == old(self).selected_field,
            },
    {
        match kind {
            CaptionType::Cea708Cdp => match extract_cdp(data) {
                Ok(captions) => Ok(self.decode_cc_data(captions)),
                Err(e) => Err(CaptionError::Cdp(e)),
            },
            CaptionType::Cea708Raw => Ok(self.decode_cc_data(data)),
            CaptionType::Cea608S3341a => Ok(self.decode_s334_1a(data)),
            CaptionType::Cea608Raw => {
                if data.len() % 2 != 0 {
                    return Err(CaptionError::Odd);
                }
                Ok(read_raw(data))
            },
            CaptionType::Other => {
                let pairs: Vec<(u8, u8)> = Vec::new();
                assert(pairs@ =~= Seq::<(u8, u8)>::empty());
                Ok(pairs)
            },
        }
    }

    /// Carries out a pair of bytes that comes at the given time. Says whether what is shown has to
    /// be rendered anew. There is no result where a carriage return cannot be carried out.
    pub fn push_pair(&mut self, pair: [u8; 2], pts: u64) -> (r: Option<Result<bool, InvalidParity>>)
        requires
            old(self).renderer.wf(),
        ensures
            final(self).renderer.wf(),
            final(self).same_settings(*old(self)),
            final(self).renderer.same_video(old(self).renderer),
            ({
                let is_pair = crate::cea608::odd_parity(pair@[0]) && crate::cea608::odd_parity(
                    pair@[1],
                );
                let code = old(self).renderer.code_for(pair@);
                let was = old(self).renderer.frame@;
                let view = crate::cea608::decoder_view(old(self).renderer.state);
                &&& match r {
                    Some(Err(_)) => !is_pair && final(self).renderer.frame@ == was,
                    Some(Ok(changed)) => {
                        &&& is_pair && (code is None || was.takes(code->0))
                        &&& changed == (code matches Some(c) && was.tuned(c).channel == Some(
                            c.channel,
                        ) && was.tuned(c).is_changed_by(c.command))
                        &&& final(self).renderer.frame@ == match code {
                            Some(c) => was.push_code(c),
                            None => was,
                        }
                    },
                    None => is_pair && code is Some && !was.takes(code->0) && final(
                        self).renderer.frame@ == was,
                }
                &&& crate::cea608::decoder_view(final(self).renderer.state) == if is_pair {
                    crate::cea608::after_pair(view, pair@[0], pair@[1])
                } else {
                    view
                }
            }),
            if r == Some(Ok::<bool, InvalidParity>(true)) {
                &&& final(self).composition is None
                &&& final(self).renderer.rectangle is None
                &&& final(self).last_cc_pts == Some(pts)
            } else {
                &&& final(self).composition == old(self).composition
                &&& final(self).renderer.rectangle == old(self).renderer.rectangle
                &&& final(self).last_cc_pts == old(self).last_cc_pts
            },
    {
        let r: Option<Result<bool, InvalidParity>> = self.renderer.push_pair(pair);
        if let Some(Ok(true)) = r {
            self.composition = None;
            self.last_cc_pts = Some(pts);
        }
        r
    }

    /// Shows text that was rendered and takes the given space.
    pub fn overlay(&mut self, first_row: usize, width: i32, height: i32)
        requires
            old(self).renderer.wf(),
            first_row <= crate::cea608::MAX_ROW,
            width >= 0,
            height >= 0,
        ensures
            final(self).renderer.wf(),
            ({
                let shown = Rectangle {
                    x: old(self).renderer.left_alignment,
                    y: crate::cea608utils::row_position(
                        old(self).renderer.video_height,
                        first_row as int,
                    ) as i32,
                    width: width as u32,
                    height: height as u32,
                };
                if width == 0 || height == 0 {
                    &&& final(self).composition == old(self).composition
                    &&& final(self).renderer.rectangle == old(self).renderer.rectangle
                } else {
                    &&& final(self).composition == Some(shown)
                    &&& final(self).renderer.rectangle == Some(shown)
                }
            }),
            final(self).renderer.frame == old(self).renderer.frame,
            final(self).renderer.state == old(self).renderer.state,
            final(self).renderer.same_video(old(self).renderer),
            final(self).same_settings(*old(self)),
            final(self).last_cc_pts == old(self).last_cc_pts,
    {
        if let Some(rectangle) = self.renderer.place(first_row, width, height) {
            self.composition = Some(rectangle);
        }
    }

    /// Whether what is shown is too old at the given time.
    pub open spec fn is_timed_out(&self, pts: u64) -> bool {
        self.timeout is Some && self.last_cc_pts is Some && pts - self.last_cc_pts->0
            > self.timeout->0
    }

    /// Nothing is shown any more where nothing came for too long.
    pub fn check_timeout(&mut self, pts: u64)
        ensures
            if old(self).is_timed_out(pts) {
                &&& final(self).composition is None
                &&& final(self).last_cc_pts is None
            } else {
                &&& final(self).composition == old(self).composition
                &&& final(self).last_cc_pts == old(self).last_cc_pts
            },
            final(self).renderer == old(self).renderer,
            final(self).same_settings(*old(self)),
    {
        if let Some(timeout) = self.timeout {
            if let Some(last) = self.last_cc_pts {
                let interval: u64 = if pts >= last {
                    pts - last
                } else {
                    0
                };
                if interval > timeout {
                    self.composition = None;
                    self.last_cc_pts = None;
                }
            }
        }
    }

    /// Forgets what is shown, and the video.
    pub fn flush_stop(&mut self)
        ensures
            final(self).renderer.wf(),
            final(self).renderer.is_new(),
            final(self).renderer.black_background == old(self).renderer.black_background,
            final(self).composition is None,
            final(self).last_cc_pts == old(self).last_cc_pts,
            final(self).same_settings(*old(self)),
    {
        let black_background: bool = self.renderer.black_background;
        self.renderer = Cea608Renderer::new();
        self.renderer.set_black_background(black_background);
        self.composition = None;
    }

    /// Chooses a field, or the first one that comes. What is shown of another one is cleared.
    pub fn set_field(&mut self, field: i32)
        requires
            old(self).renderer.wf(),
            -1 <= field <= 1,
        ensures
            final(self).renderer.wf(),
            final(self).selected_field == if field == -1 {
                None
            } else {
                Some(field as u8)
            },
            if final(self).selected_field == old(self).selected_field {
                final(self).same_but_field(*old(self))
            } else {
                &&& final(self).composition is None
                &&& final(self).renderer.frame@ == (crate::cea608utils::FrameView {
                    channel: old(self).renderer.frame@.channel,
                    ..old(self).renderer.frame@.reset()
                })
                &&& crate::cea608::decoder_view(final(self).renderer.state)
                    == crate::cea608::empty_decoder()
                &&& final(self).renderer.rectangle == if old(self).renderer.frame@.channel is Some {
                    None
                } else {
                    old(self).renderer.rectangle
                }
                &&& final(self).renderer.same_video(old(self).renderer)
            },
            final(self).attach == old(self).attach,
            final(self).last_cc_pts == old(self).last_cc_pts,
            final(self).timeout == old(self).timeout,
    {
        let old_field: Option<u8> = self.selected_field;
        self.selected_field = if field == -1 {
            None
        } else {
            Some(field as u8)
        };
        let is_same: bool = match (self.selected_field, old_field) {
            (Some(a), Some(b)) => a == b,
            (None, None) => true,
            _ => false,
        };
        if !is_same {
            self.renderer.clear();
            self.composition = None;
        }
    }

    /// Chooses whether text stands on black.
    pub fn set_black_background(&mut self, black_background: bool)
        ensures
            final(self).renderer.black_background == black_background,
            final(self).renderer.rectangle is None,
            final(self).renderer.frame == old(self).renderer.frame,
            final(self).renderer.state == old(self).renderer.state,
            final(self).renderer.video_width == old(self).renderer.video_width,
            final(self).renderer.video_height == old(self).renderer.video_height,
            final(self).renderer.left_alignment == old(self).renderer.left_alignment,
            final(self).composition is None,
            final(self).last_cc_pts == old(self).last_cc_pts,
            final(self).same_settings(*old(self)),
    {
        self.renderer.set_black_background(black_background);
        self.composition = None;
    }

    /// Chooses for how long text is shown. The highest number stands for any time.
    pub fn set_timeout(&mut self, timeout: u64)
        ensures
            final(self).timeout == if timeout == u64::MAX {
                None
            } else {
                Some(timeout)
            },
            final(self).selected_field == old(self).selected_field,
            final(self).renderer == old(self).renderer,
            final(self).composition == old(self).composition,
            final(self).attach == old(self).attach,
            final(self).last_cc_pts == old(self).last_cc_pts,
    {
        self.timeout = if timeout == u64::MAX {
            None
        } else {
            Some(timeout)
        };
    }
}

fn read_raw(data: &[u8]) -> (r: Vec<(u8, u8)>)
    ensures
        r@ == raw_pairs(data@),
{
    let mut pairs: Vec<(u8, u8)> = Vec::new();
    let n: usize = data.len() / 2;
    let mut i: usize = 0;
    while i < n
        invariant
            n == data@.len() / 2,
            data@.len() <= usize::MAX,
            i <= n,
            pairs@ == raw_pairs(data@).take(i as int),
        decreases n - i,
    {
        pairs.push((data[2 * i], data[2 * i + 1]));
        i += 1;
        assert(pairs@ =~= raw_pairs(data@).take(i as int));
    }
    assert(pairs@ =~= raw_pairs(data@));
    pairs
}

proof fn lemma_no_more(data: Seq<u8>, selected: Option<u8>, n: int, m: int)
    requires
        0 <= n <= m,
        !cc_data_pairs(data, selected, n).more,
    ensures
        cc_data_pairs(data, selected, m) == cc_data_pairs(data, selected, n),
    decreases m,
{
    if n < m {
        lemma_no_more(data, selected, n, m - 1);
    }
}

/// A field that is chosen stays chosen, whatever comes.
pub proof fn law_field_is_kept(kind: CaptionType, data: Seq<u8>, field: u8)
    ensures
        caption_pairs(kind, data, Some(field)).selected == Some(field),
{
    match kind {
        CaptionType::Cea708Cdp => {
            let captions = crate::ccutils::cdp_cc_data(data);
            lemma_kept(captions, field, captions.len() as int / 3);
        },
        CaptionType::Cea708Raw => lemma_kept(data, field, data.len() as int / 3),
        CaptionType::Cea608S3341a => lemma_kept_1a(data, field, data.len() as int / 3),
        _ => {},
    }
}

proof fn lemma_kept(data: Seq<u8>, field: u8, n: int)
    ensures
        cc_data_pairs(data, Some(field), n).selected == Some(field),
    decreases n,
{
    if n > 0 {
        lemma_kept(data, field, n - 1);
    }
}

proof fn lemma_kept_1a(data: Seq<u8>, field: u8, n: int)
    ensures
        s334_1a_pairs(data, Some(field), n).selected == Some(field),
    decreases n,
{
    if n > 0 {
        lemma_kept_1a(data, field, n - 1);
    }
}

/// What is shown is only that which may have changed: where a code does not say so, what is shown
/// stays as it is.
pub proof fn law_unchanged_display(
    frame: crate::cea608utils::FrameView,
    command: crate::cea608::CaptionCommand,
)
    requires
        frame.wf(),
        crate::cea608::is_command(command),
        !frame.is_changed_by(command),
    ensures
        frame.run(command).display == frame.display,
{
}

/// The pairs of the chosen field come out, all of them and in order, and none of the other field.
pub proof fn law_pairs_of_the_field_come_out(data: Seq<u8>, field: u8, n: int)
    requires
        0 <= n <= data.len() / 3,
    ensures
        ({
            let triples = Seq::new(
                n as nat,
                |i: int| (data[3 * i] >= 0x80, (data[3 * i + 1], data[3 * i + 2])),
            );
            s334_1a_pairs(data, Some(field), n).pairs == triples.filter(
                |t: (bool, (u8, u8))|
                    field == if t.0 {
                        0u8
                    } else {
                        1u8
                    },
            ).map_values(|t: (bool, (u8, u8))| t.1)
        }),
        s334_1a_pairs(data, Some(field), n).selected == Some(field),
    decreases n,
{
    reveal(Seq::filter);
    let triples = Seq::new(
        n as nat,
        |i: int| (data[3 * i] >= 0x80, (data[3 * i + 1], data[3 * i + 2])),
    );
    let chosen = |t: (bool, (u8, u8))|
        field == if t.0 {
            0u8
        } else {
            1u8
        };
    let all = triples.filter(chosen).map_values(|t: (bool, (u8, u8))| t.1);
    if n > 0 {
        law_pairs_of_the_field_come_out(data, field, n - 1);
        let before = Seq::new(
            (n - 1) as nat,
            |i: int| (data[3 * i] >= 0x80, (data[3 * i + 1], data[3 * i + 2])),
        );
        assert(triples.drop_last() =~= before);
        assert(s334_1a_pairs(data, Some(field), n).pairs =~= all);
    } else {
        assert(triples.filter(chosen).len() == 0);
        assert(s334_1a_pairs(data, Some(field), n).pairs =~= all);
    }
}

/// Where no field is chosen yet, the field of the first pair is.
pub proof fn law_first_field_is_chosen(data: Seq<u8>)
    requires
        data.len() >= 3,
    ensures
        s334_1a_pairs(data, None, 1).selected == Some(
            if data[0] >= 0x80 {
                0u8
            } else {
                1u8
            },
        ),
        s334_1a_pairs(data, None, 1).pairs == seq![(data[1], data[2])],
{
    reveal_with_fuel(s334_1a_pairs, 2);
    assert(s334_1a_pairs(data, None, 1).pairs =~= seq![(data[1], data[2])]);
}

} // verus!
