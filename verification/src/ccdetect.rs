//! Detection of captions in a stream.
use crate::ccutils::{extract_cdp, ParseError, ParseErrorCode};
use crate::clock::FlowError;
use vstd::prelude::*;

verus! {

/// The window that is used where none is set, in nanoseconds.
pub const DEFAULT_WINDOW: u64 = 10_000_000_000;

/// What the user set, and what was found.
#[derive(Debug, Clone, Copy, PartialEq, Eq, Structural)]
pub struct Settings {
    pub window: u64,
    pub cc608: bool,
    pub cc708: bool,
}

impl Default for Settings {
    fn default() -> (r: Self)
        ensures
            r == (Settings { window: DEFAULT_WINDOW, cc608: false, cc708: false }),
    {
        Settings { window: DEFAULT_WINDOW, cc608: false, cc708: false }
    }
}

/// How captions come in.
#[derive(Debug, Clone, Copy, PartialEq, Eq, Structural)]
pub enum CCFormat {
    Cc708Cdp,
    Cc708CcData,
}

impl CCFormat {
    /// The format with the given name.
    pub fn from_name(name: &[u8]) -> (r: Option<CCFormat>)
        ensures
            r == if name@ == crate::text::text("cdp") {
                Some(CCFormat::Cc708Cdp)
            } else if name@ == crate::text::text("cc_data") {
                Some(CCFormat::Cc708CcData)
            } else {
                None
            },
    {
        if crate::text::same_bytes(name, "cdp".as_bytes()) {
            Some(CCFormat::Cc708Cdp)
        } else if crate::text::same_bytes(name, "cc_data".as_bytes()) {
            Some(CCFormat::Cc708CcData)
        } else {
            None
        }
    }
}

/// What is known of the stream.
#[derive(Debug, Clone, Copy, PartialEq, Eq, Structural)]
pub struct State {
    pub format: CCFormat,
    pub last_cc608_change: Option<u64>,
    pub last_cc708_change: Option<u64>,
}

/// Detects whether a stream holds captions.
#[derive(Debug, Clone, Copy, PartialEq, Eq, Structural)]
pub struct CCDetect {
    pub settings: Settings,
    pub state: Option<State>,
}

/// The captions that a buffer holds.
#[derive(Debug, Clone, Copy, PartialEq, Eq, Structural)]
pub struct CCPacketContents {
    pub cc608: bool,
    pub cc708: bool,
}

/// Which properties changed.
#[derive(Debug, Clone, Copy, PartialEq, Eq, Structural)]
pub struct Changes {
    pub cc608: bool,
    pub cc708: bool,
}

/// What came of a buffer.
#[derive(Debug)]
pub struct Report {
    pub changes: Changes,
    /// What was wrong with the captions.
    pub error: Option<ParseError>,
}

/// Whether the triple of bytes at `i` is marked as valid.
pub open spec fn is_valid(data: Seq<u8>, i: int) -> bool {
    data[3 * i] as int / 4 % 2 == 1
}

/// Whether the triple of bytes at `i` belongs to CEA-708 data.
pub open spec fn is_ccp(data: Seq<u8>, i: int) -> bool {
    data[3 * i] as int / 2 % 2 == 1
}

/// Whether the triple at `i` is valid CEA-608 data.
pub open spec fn is_608(data: Seq<u8>, i: int) -> bool {
    is_valid(data, i) && !is_ccp(data, i)
}

/// Whether the triple at `i` holds CEA-608 data other than padding.
pub open spec fn has_608(data: Seq<u8>, i: int) -> bool {
    is_608(data, i) && !(data[3 * i + 1] == 0x80 && data[3 * i + 2] == 0x80)
}

/// Whether the triple at `i` is valid CEA-708 data.
pub open spec fn has_708(data: Seq<u8>, i: int) -> bool {
    is_valid(data, i) && is_ccp(data, i)
}

/// Whether CEA-708 data begins before triple `i`.
pub open spec fn ccp_before(data: Seq<u8>, i: int) -> bool {
    exists|j: int| 0 <= j < i && #[trigger] is_ccp(data, j)
}

/// Whether CEA-608 data stands at `i` though CEA-708 data began before.
pub open spec fn misplaced(data: Seq<u8>, i: int) -> bool {
    is_608(data, i) && ccp_before(data, i)
}

/// Whether CEA-608 data stands behind CEA-708 data. Bytes behind the last whole triple do not
/// count.
pub open spec fn is_out_of_order(data: Seq<u8>) -> bool {
    exists|i: int| 0 <= i < data.len() / 3 && #[trigger] misplaced(data, i)
}

/// Whether `e` reports the first triple of CEA-608 data that stands behind CEA-708 data, by the
/// number of bytes from there to the end.
pub open spec fn is_order_error(data: Seq<u8>, e: crate::ccutils::ParseErrorView) -> bool {
    &&& e.code == ParseErrorCode::WrongLayout
    &&& e.msg == "Invalid cc_data. cea608 bytes after cea708"@
    &&& exists|i: int|
        {
            &&& 0 <= i < data.len() / 3
            &&& #[trigger] misplaced(data, i)
            &&& forall|j: int| 0 <= j < i ==> !#[trigger] misplaced(data, j)
            &&& e.byte == data.len() - 3 * i
        }
}

/// What caption data holds.
pub open spec fn contents(data: Seq<u8>) -> CCPacketContents {
    CCPacketContents {
        cc608: exists|i: int| 0 <= i < data.len() / 3 && #[trigger] has_608(data, i),
        cc708: exists|i: int| 0 <= i < data.len() / 3 && #[trigger] has_708(data, i),
    }
}

/// What the property is set to and when it was last confirmed or changed, after a buffer.
///
/// A property that the buffer confirms is confirmed at once. One that it contradicts changes
/// where nothing is known yet, or where nothing confirmed it within the window.
pub open spec fn updated(now: bool, found: bool, last: Option<u64>, ts: u64, window: u64) -> (
    bool,
    Option<u64>,
) {
    if found == now {
        (now, Some(ts))
    } else if last is None || ts > last->0 + window {
        (found, Some(ts))
    } else {
        (now, last)
    }
}

/// The detector after a buffer or gap at `ts`.
pub open spec fn after(settings: Settings, state: State, ts: u64, found: CCPacketContents) -> (
    Settings,
    State,
) {
    let (cc608, last_cc608_change) = updated(
        settings.cc608,
        found.cc608,
        state.last_cc608_change,
        ts,
        settings.window,
    );
    let (cc708, last_cc708_change) = updated(
        settings.cc708,
        found.cc708,
        state.last_cc708_change,
        ts,
        settings.window,
    );
    (
        Settings { window: settings.window, cc608, cc708 },
        State { format: state.format, last_cc608_change, last_cc708_change },
    )
}

/// Whether the time at which a property may change can be told, where it has to be.
pub open spec fn leaves_room(now: bool, found: bool, last: Option<u64>, window: u64) -> bool {
    found != now && last is Some ==> last->0 + window < u64::MAX
}

fn update(now: bool, found: bool, last: Option<u64>, ts: u64, window: u64) -> (r: (
    bool,
    Option<u64>,
))
    requires
        leaves_room(now, found, last, window),
    ensures
        r == updated(now, found, last, ts, window),
{
    if found == now {
        return (now, Some(ts));
    }
    let changed: bool = match last {
        Some(l) => ts > l + window,
        None => true,
    };
    if changed {
        (found, Some(ts))
    } else {
        (now, last)
    }
}

impl CCDetect {
    /// A detector that knows nothing of the stream.
    pub fn new() -> (r: CCDetect)
        ensures
            r.settings == (Settings { window: DEFAULT_WINDOW, cc608: false, cc708: false }),
            r.state is None,
    {
        CCDetect { settings: Settings::default(), state: None }
    }

    /// Where something else was found than before, the times that the detector keeps leave room
    /// for the window.
    pub open spec fn in_range(&self, found: CCPacketContents) -> bool {
        self.state matches Some(s) ==> {
            &&& leaves_room(
                self.settings.cc608,
                found.cc608,
                s.last_cc608_change,
                self.settings.window,
            )
            &&& leaves_room(
                self.settings.cc708,
                found.cc708,
                s.last_cc708_change,
                self.settings.window,
            )
        }
    }

    /// Looks for captions in caption data.
    pub fn detect_cc_data(&self, data: &[u8]) -> (r: Result<CCPacketContents, ParseError>)
        ensures
            r is Err <==> is_out_of_order(data@),
            r matches Ok(found) ==> found == contents(data@),
            r matches Err(e) ==> is_order_error(data@, e@),
    {
        let mut started_ccp: bool = false;
        let mut have_cc608: bool = false;
        let mut have_cc708: bool = false;
        let len: usize = data.len();
        let triples: usize = len / 3;
        let mut i: usize = 0;
        while i < triples
            invariant
                i <= triples == len / 3,
                len == data@.len(),
                started_ccp == ccp_before(data@, i as int),
                have_cc608 == (exists|j: int| 0 <= j < i && #[trigger] has_608(data@, j)),
                have_cc708 == (exists|j: int| 0 <= j < i && #[trigger] has_708(data@, j)),
                forall|j: int| 0 <= j < i ==> !#[trigger] misplaced(data@, j),
            decreases triples - i,
        {
            let b0: u8 = data[3 * i];
            let cc_valid: bool = b0 / 4 % 2 == 1;
            let ccp: bool = b0 / 2 % 2 == 1;
            let padding: bool = data[3 * i + 1] == 0x80 && data[3 * i + 2] == 0x80;
            assert(ccp == is_ccp(data@, i as int) && cc_valid == is_valid(data@, i as int));
            assert((cc_valid && !ccp && !padding) == has_608(data@, i as int));
            assert((cc_valid && ccp) == has_708(data@, i as int));
            if cc_valid && !ccp {
                if started_ccp {
                    assert(misplaced(data@, i as int));
                    let mut msg: String = String::new();
                    msg.push_str("Invalid cc_data. cea608 bytes after cea708");
                    assert(msg@ =~= "Invalid cc_data. cea608 bytes after cea708"@);
                    return Err(
                        ParseError {
                            code: ParseErrorCode::WrongLayout,
                            byte: data.len() - i * 3,
                            msg,
                        },
                    );
                }
                if !padding {
                    have_cc608 = true;
                }
            } else {
                if ccp {
                    started_ccp = true;
                }
                if cc_valid {
                    have_cc708 = true;
                }
            }
            assert(!misplaced(data@, i as int));
            i += 1;
        }
        Ok(CCPacketContents { cc608: have_cc608, cc708: have_cc708 })
    }

    /// Looks for captions in a caption distribution packet.
    pub fn detect_cdp(&self, data: &[u8]) -> (r: Result<CCPacketContents, ParseError>)
        ensures
            crate::ccutils::cdp_error(data@) matches Some(e) ==> r is Err && (r->Err_0)@ == e,
            crate::ccutils::cdp_error(data@) is None ==> {
                let cc = crate::ccutils::cdp_cc_data(data@);
                &&& r is Err <==> is_out_of_order(cc)
                &&& r matches Ok(found) ==> found == contents(cc)
                &&& r matches Err(e) ==> is_order_error(cc, e@)
            },
    {
        match extract_cdp(data) {
            Ok(cc) => self.detect_cc_data(cc),
            Err(e) => Err(e),
        }
    }

    /// What a buffer holds in the given format, where it can be parsed.
    pub open spec fn found_in(format: CCFormat, data: Seq<u8>) -> Option<CCPacketContents> {
        match format {
            CCFormat::Cc708CcData => if is_out_of_order(data) {
                None
            } else {
                Some(contents(data))
            },
            CCFormat::Cc708Cdp => if crate::ccutils::cdp_error(data) is Some || is_out_of_order(
                crate::ccutils::cdp_cc_data(data),
            ) {
                None
            } else {
                Some(contents(crate::ccutils::cdp_cc_data(data)))
            },
        }
    }

    /// Whether `e` is what is wrong with a buffer of the given format.
    pub open spec fn is_error_in(
        format: CCFormat,
        data: Seq<u8>,
        e: crate::ccutils::ParseErrorView,
    ) -> bool {
        match format {
            CCFormat::Cc708CcData => is_order_error(data, e),
            CCFormat::Cc708Cdp => match crate::ccutils::cdp_error(data) {
                Some(error) => e == error,
                None => is_order_error(crate::ccutils::cdp_cc_data(data), e),
            },
        }
    }

    /// Looks for captions in a buffer of the given format.
    pub fn detect(&self, format: CCFormat, data: &[u8]) -> (r: Result<CCPacketContents, ParseError>)
        ensures
            r is Ok <==> Self::found_in(format, data@) is Some,
            r matches Ok(found) ==> Some(found) == Self::found_in(format, data@),
            r matches Err(e) ==> Self::is_error_in(format, data@, e@),
    {
        match format {
            CCFormat::Cc708CcData => self.detect_cc_data(data),
            CCFormat::Cc708Cdp => self.detect_cdp(data),
        }
    }

    /// Takes note of what was found at `ts`, and tells which properties changed.
    pub fn maybe_update_properties(&mut self, ts: u64, cc_packet: CCPacketContents) -> (r: Result<
        Changes,
        FlowError,
    >)
        requires
            old(self).in_range(cc_packet),
        ensures
            old(self).state is None ==> r == Err::<Changes, FlowError>(FlowError::NotNegotiated)
                && *final(self) == *old(self),
            old(self).state matches Some(state) ==> {
                let (settings, next) = after(old(self).settings, state, ts, cc_packet);
                &&& *final(self) == (CCDetect { settings, state: Some(next) })
                &&& r == Ok::<Changes, FlowError>(
                    Changes {
                        cc608: settings.cc608 != old(self).settings.cc608,
                        cc708: settings.cc708 != old(self).settings.cc708,
                    },
                )
            },
    {
        let state: State = match self.state {
            Some(v) => v,
            None => return Err(FlowError::NotNegotiated),
        };
        let was: Settings = self.settings;
        let (cc608, last_cc608_change) = update(
            was.cc608,
            cc_packet.cc608,
            state.last_cc608_change,
            ts,
            was.window,
        );
        let (cc708, last_cc708_change) = update(
            was.cc708,
            cc_packet.cc708,
            state.last_cc708_change,
            ts,
            was.window,
        );
        self.settings = Settings { window: was.window, cc608, cc708 };
        self.state = Some(State { format: state.format, last_cc608_change, last_cc708_change });
        Ok(Changes { cc608: cc608 != was.cc608, cc708: cc708 != was.cc708 })
    }

    /// What counts as found in data.
    pub open spec fn seen_in(format: CCFormat, data: Seq<u8>) -> CCPacketContents {
        match Self::found_in(format, data) {
            Some(found) => found,
            None => CCPacketContents { cc608: false, cc708: false },
        }
    }

    /// A buffer passed. One whose captions cannot be parsed counts as one without captions.
    pub fn handle_buffer(&mut self, pts: Option<u64>, data: &[u8]) -> (r: Result<Report, FlowError>)
        requires
            pts is Some && old(self).state is Some ==> old(self).in_range(
                Self::seen_in((old(self).state->0).format, data@),
            ),
        ensures
            pts is None ==> r is Err && r->Err_0 == FlowError::Error && *final(self) == *old(self),
            pts is Some && old(self).state is None ==> r is Err && r->Err_0
                == FlowError::NotNegotiated && *final(self) == *old(self),
            pts is Some && old(self).state is Some ==> {
                let state = old(self).state->0;
                let found = Self::found_in(state.format, data@);
                let seen = Self::seen_in(state.format, data@);
                let (settings, next) = after(old(self).settings, state, pts->0, seen);
                &&& *final(self) == (CCDetect { settings, state: Some(next) })
                &&& r is Ok
                &&& r->Ok_0.error is Some <==> found is None
                &&& r->Ok_0.error matches Some(e) ==> Self::is_error_in(state.format, data@, e@)
                &&& r->Ok_0.changes == (Changes {
                    cc608: settings.cc608 != old(self).settings.cc608,
                    cc708: settings.cc708 != old(self).settings.cc708,
                })
            },
    {
        let ts: u64 = match pts {
            Some(v) => v,
            None => return Err(FlowError::Error),
        };
        let format: CCFormat = match &self.state {
            Some(state) => state.format,
            None => return Err(FlowError::NotNegotiated),
        };
        let (seen, error) = match self.detect(format, data) {
            Ok(v) => (v, None),
            Err(e) => (CCPacketContents { cc608: false, cc708: false }, Some(e)),
        };
        match self.maybe_update_properties(ts, seen) {
            Ok(changes) => Ok(Report { changes, error }),
            Err(_) => Err(FlowError::Error),
        }
    }

    /// The format was agreed on.
    pub fn set_format(&mut self, format: CCFormat)
        ensures
            final(self).settings == old(self).settings,
            final(self).state == Some(
                State { format, last_cc608_change: None, last_cc708_change: None },
            ),
    {
        self.state = Some(State { format, last_cc608_change: None, last_cc708_change: None });
    }

    /// The stream ended.
    pub fn stop(&mut self)
        ensures
            final(self).settings == old(self).settings,
            final(self).state is None,
    {
        self.state = None;
    }
}

/// A property never changes twice within the window: once it was confirmed or changed at some
/// time, what comes within the window leaves it as it is.
pub proof fn law_no_flicker(now: bool, found: bool, last: u64, ts: u64, window: u64)
    requires
        ts <= last + window,
    ensures
        updated(now, found, Some(last), ts, window).0 == now,
{
}

/// Captions that show up for the first time are reported at once.
pub proof fn law_first_buffer_decides(settings: Settings, format: CCFormat, ts: u64, found: CCPacketContents)
    ensures
        ({
            let state = State { format, last_cc608_change: None, last_cc708_change: None };
            let (next, _) = after(settings, state, ts, found);
            next.cc608 == found.cc608 && next.cc708 == found.cc708
        }),
{
}

/// What a buffer confirms is confirmed at its time. What it contradicts is given up once nothing
/// confirmed it for longer than the window, and what the buffer says holds from its time on.
pub proof fn law_captions_are_given_up(now: bool, last: u64, ts: u64, window: u64)
    ensures
        updated(now, now, Some(last), ts, window) == (now, Some(ts)),
        ts > last + window ==> updated(now, !now, Some(last), ts, window) == (!now, Some(ts)),
        ts <= last + window ==> updated(now, !now, Some(last), ts, window) == (now, Some(last)),
{
}

proof fn lemma_head(b: u8)
    ensures
        (b as int / 4 % 2 == 1) == (b & 0x04 == 0x04),
        (b as int / 2 % 2 == 1) == (b & 0x03 >= 2),
{
    assert((b / 4) % 2 == (if b & 0x04 == 0x04 {
        1u8
    } else {
        0u8
    })) by (bit_vector);
    assert((b / 2) % 2 == (if b & 0x03 >= 2 {
        1u8
    } else {
        0u8
    })) by (bit_vector);
}

/// Captions are found where a triple is marked as valid: those of line 21 in triples of the first
/// two kinds, unless they are padding, and the others in triples of the last two kinds. Nothing is
/// found where no triple is valid.
pub proof fn law_captions_are_found(data: Seq<u8>, i: int)
    requires
        0 <= i < data.len() / 3,
    ensures
        ({
            let valid = data[3 * i] & 0x04 == 0x04;
            let kind = data[3 * i] & 0x03;
            let padding = data[3 * i + 1] == 0x80 && data[3 * i + 2] == 0x80;
            &&& valid && kind < 2 && !padding ==> contents(data).cc608
            &&& valid && kind >= 2 ==> contents(data).cc708
        }),
        (forall|k: int|
            0 <= k < data.len() / 3 ==> #[trigger] data[3 * k] & 0x04 != 0x04) ==> !contents(
            data,
        ).cc608 && !contents(data).cc708,
{
    lemma_head(data[3 * i]);
    assert(is_valid(data, i) == (data[3 * i] & 0x04 == 0x04));
    assert(is_ccp(data, i) == (data[3 * i] & 0x03 >= 2));
    if has_608(data, i) {
        assert(contents(data).cc608);
    }
    if has_708(data, i) {
        assert(contents(data).cc708);
    }
    if forall|k: int| 0 <= k < data.len() / 3 ==> #[trigger] data[3 * k] & 0x04 != 0x04 {
        assert forall|k: int| 0 <= k < data.len() / 3 implies !#[trigger] is_valid(data, k) by {
            lemma_head(data[3 * k]);
        }
        assert forall|k: int| 0 <= k < data.len() / 3 implies !#[trigger] has_608(data, k) by {
            assert(!is_valid(data, k));
        }
        assert forall|k: int| 0 <= k < data.len() / 3 implies !#[trigger] has_708(data, k) by {
            assert(!is_valid(data, k));
        }
    }
}

} // verus!
