//! Verified building blocks for closed caption processing.
pub mod line_reader;
pub mod caption_file;
pub mod mcc_parse;
pub mod parser_utils;
pub mod scc_parse;
pub mod text;
pub mod bits;
pub mod st2038anc_utils;
pub mod clock;
pub mod mcc_enc;
pub mod scc_enc;
pub mod ccutils;
pub mod ccdetect;
pub mod cctost2038anc;
pub mod st2038anctocc;
pub mod st2038ancdemux;
pub mod st2038ancmux;
pub mod dtvcc;
pub mod cea708mux;
pub mod cea608;
pub mod pango;
pub mod cea608utils;
pub mod ttutils;
pub mod cea608tojson;
pub mod cea608tott;
pub mod jsontovtt;
pub mod cea708;
pub mod cea708utils;
pub mod cea608overlay;
pub mod cea708overlay;
pub mod cdgconstants;
pub mod cdgdec;
pub mod cdgparse;
pub mod cdgtypefind;
pub mod cdp;
pub mod cdpserviceinject;
pub mod cea608tocea708;
