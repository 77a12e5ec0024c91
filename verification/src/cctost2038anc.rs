//! Packing of captions as ancillary data.
use crate::clock::FlowError;
use crate::st2038anc_utils::convert_to_st2038_buffer;
use vstd::prelude::*;

verus! {

/// The kind of captions that come in.
#[derive(Clone, Copy, Debug, PartialEq, Eq, Structural)]
pub enum Format {
    Cea608,
    Cea708,
}

/// Where in the picture the packets go.
#[derive(Clone, Copy, Debug, PartialEq, Eq, Structural)]
pub struct Settings {
    pub c_not_y_channel: bool,
    pub line_number: u16,
    pub horizontal_offset: u16,
}

impl Default for Settings {
    fn default() -> (r: Self)
        ensures
            r == (Settings { c_not_y_channel: false, line_number: 9, horizontal_offset: 0 }),
    {
        Settings { c_not_y_channel: false, line_number: 9, horizontal_offset: 0 }
    }
}

/// Converts captions to ancillary data packets.
#[derive(Clone, Copy, Debug, PartialEq, Eq, Structural)]
pub struct CcToSt2038Anc {
    pub format: Option<Format>,
    pub settings: Settings,
}

/// The secondary data identifier of a kind of captions. The data identifier is 0x61 for both.
pub open spec fn sdid_of(format: Format) -> u8 {
    match format {
        Format::Cea608 => 0x02,
        Format::Cea708 => 0x01,
    }
}

impl CcToSt2038Anc {
    /// A converter with the usual place in the picture.
    pub fn new() -> (r: CcToSt2038Anc)
        ensures
            r.format is None,
            r.settings == (Settings {
                c_not_y_channel: false,
                line_number: 9,
                horizontal_offset: 0,
            }),
    {
        CcToSt2038Anc { format: None, settings: Settings::default() }
    }

    /// Takes note of the kind of captions by the name of its media type. Other names are refused.
    pub fn set_media_type(&mut self, name: &[u8]) -> (r: bool)
        ensures
            final(self).settings == old(self).settings,
            ({
                let is_608 = name@ == crate::text::text("closedcaption/x-cea-608");
                let is_708 = name@ == crate::text::text("closedcaption/x-cea-708");
                &&& r == (is_608 || is_708)
                &&& final(self).format == if is_608 {
                    Some(Format::Cea608)
                } else if is_708 {
                    Some(Format::Cea708)
                } else {
                    old(self).format
                }
            }),
    {
        if crate::text::same_bytes(name, "closedcaption/x-cea-608".as_bytes()) {
            self.format = Some(Format::Cea608);
            true
        } else if crate::text::same_bytes(name, "closedcaption/x-cea-708".as_bytes()) {
            self.format = Some(Format::Cea708);
            true
        } else {
            false
        }
    }

    /// Packs a buffer of captions.
    pub fn convert(&self, data: &[u8]) -> (r: Result<Vec<u8>, FlowError>)
        ensures
            self.format is None ==> r == Err::<Vec<u8>, FlowError>(FlowError::NotNegotiated),
            self.format matches Some(format) ==> {
                let s = self.settings;
                &&& r is Ok <==> crate::st2038anc_utils::can_convert(
                    s.line_number,
                    s.horizontal_offset,
                    data@,
                )
                &&& r matches Ok(bytes) ==> crate::bits::bits_of(bytes@)
                    == crate::st2038anc_utils::packet(
                    s.c_not_y_channel,
                    s.line_number,
                    s.horizontal_offset,
                    0x61,
                    sdid_of(format),
                    data@,
                )
                &&& r matches Err(e) ==> e == FlowError::Error
            },
    {
        let sdid: u8 = match self.format {
            Some(Format::Cea608) => 0x02,
            Some(Format::Cea708) => 0x01,
            None => return Err(FlowError::NotNegotiated),
        };
        match convert_to_st2038_buffer(
            self.settings.c_not_y_channel,
            self.settings.line_number,
            self.settings.horizontal_offset,
            0x61,
            sdid,
            data,
        ) {
            Ok(bytes) => Ok(bytes),
            Err(_) => Err(FlowError::Error),
        }
    }
}

} // verus!
