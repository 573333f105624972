//! Format drivers: how a record becomes bytes on the wire.
use vstd::prelude::*;
use crate::event::Event;
use vstd::string::StrSliceExecFns;

verus! {

/// A wire format for records. The provided driver is line-delimited JSON;
/// users may implement their own.
pub trait SerdeFormat {
    /// A hint at the expected size of one serialized record, which writers
    /// may use to size their buffers.
    fn message_size_hint(&self) -> usize;

    /// Serialize one record to its wire bytes.
    fn serialize(&self, event: &Event) -> Vec<u8>;
}

/// Line-delimited JSON: each record is one compact JSON object followed by
/// a newline.
#[derive(Copy, Clone, Debug)]
pub struct Json;

impl Json {
    /// The exact JSON line of a record, as text.
    pub fn serialize_line(&self, event: &Event) -> (r: String)
        ensures
            r@ == crate::json::json_line_of_event(event@),
    {
        crate::json::event_to_json_line(event)
    }
}

impl SerdeFormat for Json {
    /// The fixed buffer hint of the JSON driver.
    fn message_size_hint(&self) -> (r: usize)
        ensures
            r == 512,
    {
        512
    }

    /// The UTF-8 bytes of the record's JSON line.
    fn serialize(&self, event: &Event) -> (r: Vec<u8>)
        ensures
            r@ == vstd::utf8::encode_utf8(crate::json::json_line_of_event(event@)),
    {
        let line = self.serialize_line(event);
        line.as_str().as_bytes_vec()
    }
}

} // verus!
