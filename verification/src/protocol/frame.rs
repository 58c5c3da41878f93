use vstd::prelude::*;
use crate::json::{Json, JsonModel, models, lemma_models};
use crate::text::{decimal, decimal_text};

verus! {

/// A Phoenix Channels v2 frame.
///
/// On the wire it is the 5-element array
/// `[join_ref, ref, topic, event, payload]`.
#[derive(Debug, Clone, PartialEq)]
pub struct PhoenixFrame {
    pub join_ref: Option<String>,
    pub reference: Option<String>,
    pub topic: String,
    pub event: String,
    pub payload: Json,
}

/// The mathematical value of a [`PhoenixFrame`].
pub struct FrameModel {
    pub join_ref: Option<Seq<char>>,
    pub reference: Option<Seq<char>>,
    pub topic: Seq<char>,
    pub event: Seq<char>,
    pub payload: JsonModel,
}

impl View for PhoenixFrame {
    type V = FrameModel;

    open spec fn view(&self) -> FrameModel {
        FrameModel {
            join_ref: self.join_ref.deep_view(),
            reference: self.reference.deep_view(),
            topic: self.topic@,
            event: self.event@,
            payload: self.payload@,
        }
    }
}

/// Why a JSON value is not a Phoenix v2 frame.
#[derive(Debug, PartialEq, Eq, Structural)]
pub enum FrameError {
    /// The value is not an array.
    NotAnArray,
    /// The value is an array with this many elements, not five.
    WrongLength(usize),
}

/// A reference on the wire: its text, or `null` when absent.
pub open spec fn ref_to_wire(r: Option<Seq<char>>) -> JsonModel {
    match r {
        Some(s) => JsonModel::Str(s),
        None => JsonModel::Null,
    }
}

/// The wire form of a frame.
pub open spec fn frame_to_wire(f: FrameModel) -> JsonModel {
    JsonModel::Array(
        seq![
            ref_to_wire(f.join_ref),
            ref_to_wire(f.reference),
            JsonModel::Str(f.topic),
            JsonModel::Str(f.event),
            f.payload,
        ],
    )
}

/// The text of a wire element, or the empty text when it is not a string.
pub open spec fn text_or_empty(v: JsonModel) -> Seq<char> {
    match v {
        JsonModel::Str(s) => s,
        _ => Seq::empty(),
    }
}

/// The frame that a wire value decodes to: references that are not strings
/// are absent, a topic or event that is not a string is empty.
pub open spec fn frame_from_wire(w: JsonModel) -> Result<FrameModel, FrameError> {
    match w {
        JsonModel::Array(items) => if items.len() == 5 {
            Ok(
                FrameModel {
                    join_ref: items[0].text(),
                    reference: items[1].text(),
                    topic: text_or_empty(items[2]),
                    event: text_or_empty(items[3]),
                    payload: items[4],
                },
            )
        } else {
            Err(FrameError::WrongLength(items.len() as usize))
        },
        _ => Err(FrameError::NotAnArray),
    }
}

/// A wire value whose references are strings or `null` and whose topic and
/// event are strings: the values that decoding does not alter.
pub open spec fn canonical_wire(w: JsonModel) -> bool {
    match w {
        JsonModel::Array(items) => {
            &&& items.len() == 5
            &&& (items[0] is Str || items[0] is Null)
            &&& (items[1] is Str || items[1] is Null)
            &&& items[2] is Str
            &&& items[3] is Str
        },
        _ => false,
    }
}

/// The text of a wire message for a decoding error.
pub open spec fn frame_error_text(e: FrameError) -> Seq<char> {
    match e {
        FrameError::NotAnArray => "Expected 5-element Phoenix v2 array"@,
        FrameError::WrongLength(n) => "Expected 5-element Phoenix v2 array, got "@ + decimal_text(
            n as nat,
        ) + " elements"@,
    }
}

/// The wire form of a frame is the array of five elements
/// `[join_ref, ref, topic, event, payload]`, an absent reference written
/// as `null`.
pub proof fn lemma_wire_layout(f: FrameModel)
    ensures
        frame_to_wire(f) matches JsonModel::Array(items) && items.len() == 5 && items[0] == match f.join_ref {
            Some(j) => JsonModel::Str(j),
            None => JsonModel::Null,
        } && items[1] == match f.reference {
            Some(r) => JsonModel::Str(r),
            None => JsonModel::Null,
        } && items[2] == JsonModel::Str(f.topic) && items[3] == JsonModel::Str(f.event) && items[4]
            == f.payload,
{
}

/// Decoding the wire form of a frame gives the frame back.
pub proof fn lemma_wire_roundtrip(f: FrameModel)
    ensures
        frame_from_wire(frame_to_wire(f)) == Ok::<FrameModel, FrameError>(f),
{
    let w = frame_to_wire(f);
    let items = seq![
        ref_to_wire(f.join_ref),
        ref_to_wire(f.reference),
        JsonModel::Str(f.topic),
        JsonModel::Str(f.event),
        f.payload,
    ];
    assert(items[0].text() == f.join_ref);
    assert(items[1].text() == f.reference);
    assert(frame_from_wire(w) == Ok::<FrameModel, FrameError>(f));
}

/// A wire value is accepted exactly when it is an array of five elements,
/// and a canonical one is given back by encoding what it decodes to.
pub proof fn lemma_wire_decode_canonical(w: JsonModel)
    ensures
        frame_from_wire(w) is Ok <==> (w is Array && w->Array_0.len() == 5),
        canonical_wire(w) ==> frame_to_wire(frame_from_wire(w)->Ok_0) == w,
{
    if canonical_wire(w) {
        let items = w->Array_0;
        let f = frame_from_wire(w)->Ok_0;
        assert(ref_to_wire(f.join_ref) == items[0]);
        assert(ref_to_wire(f.reference) == items[1]);
        assert(frame_to_wire(f)->Array_0 =~= items);
    }
}

/// The wire element of an optional reference.
fn ref_json(r: Option<String>) -> (j: Json)
    ensures
        j@ == ref_to_wire(r.deep_view()),
{
    match r {
        Some(s) => Json::Str(s),
        None => Json::Null,
    }
}

/// The reference held by a wire element, when it is a string.
fn json_text(j: Json) -> (r: Option<String>)
    ensures
        r.deep_view() == j@.text(),
{
    match j {
        Json::Str(s) => Some(s),
        _ => None,
    }
}

/// The text of a wire element, or the empty text.
fn json_text_or_empty(j: Json) -> (r: String)
    ensures
        r@ == text_or_empty(j@),
{
    match j {
        Json::Str(s) => s,
        _ => String::new(),
    }
}

impl FrameError {
    /// The message that explains the error.
    pub fn message(&self) -> (r: String)
        ensures
            r@ == frame_error_text(*self),
    {
        match self {
            FrameError::NotAnArray => String::from_str("Expected 5-element Phoenix v2 array"),
            FrameError::WrongLength(n) => {
                let mut s = String::from_str("Expected 5-element Phoenix v2 array, got ");
                let count = decimal(*n as u64);
                s.append(count.as_str());
                s.append(" elements");
                s
            },
        }
    }
}

impl PhoenixFrame {
    /// A frame made of the given parts.
    pub fn new(
        join_ref: Option<String>,
        reference: Option<String>,
        topic: &str,
        event: &str,
        payload: Json,
    ) -> (f: PhoenixFrame)
        ensures
            f@ == (FrameModel {
                join_ref: join_ref.deep_view(),
                reference: reference.deep_view(),
                topic: topic@,
                event: event@,
                payload: payload@,
            }),
    {
        PhoenixFrame {
            join_ref,
            reference,
            topic: String::from_str(topic),
            event: String::from_str(event),
            payload,
        }
    }

    /// A `phx_join` frame that joins `topic`, with `reference` as both its
    /// join reference and its reference, and an empty object as payload.
    pub fn join(topic: &str, reference: &str) -> (f: PhoenixFrame)
        ensures
            f@ == (FrameModel {
                join_ref: Some(reference@),
                reference: Some(reference@),
                topic: topic@,
                event: "phx_join"@,
                payload: JsonModel::Object(Map::empty()),
            }),
    {
        let payload = Json::Object(Vec::new());
        proof {
            assert(payload@ == JsonModel::Object(crate::json::entry_map(Seq::empty())));
        }
        PhoenixFrame::new(
            Some(String::from_str(reference)),
            Some(String::from_str(reference)),
            topic,
            "phx_join",
            payload,
        )
    }

    /// A `heartbeat` frame on the `phoenix` topic, with no join reference
    /// and an empty object as payload.
    pub fn heartbeat(reference: &str) -> (f: PhoenixFrame)
        ensures
            f@ == (FrameModel {
                join_ref: None,
                reference: Some(reference@),
                topic: "phoenix"@,
                event: "heartbeat"@,
                payload: JsonModel::Object(Map::empty()),
            }),
    {
        let payload = Json::Object(Vec::new());
        proof {
            assert(payload@ == JsonModel::Object(crate::json::entry_map(Seq::empty())));
        }
        PhoenixFrame::new(None, Some(String::from_str(reference)), "phoenix", "heartbeat", payload)
    }

    /// A push of `event` with `payload` on an already joined `topic`, with
    /// no join reference.
    pub fn push(topic: &str, event: &str, reference: &str, payload: Json) -> (f: PhoenixFrame)
        ensures
            f@ == (FrameModel {
                join_ref: None,
                reference: Some(reference@),
                topic: topic@,
                event: event@,
                payload: payload@,
            }),
    {
        PhoenixFrame::new(None, Some(String::from_str(reference)), topic, event, payload)
    }

    /// The wire form of the frame, consuming it.
    pub fn into_wire(self) -> (w: Json)
        ensures
            w@ == frame_to_wire(self@),
    {
        let ghost model = self@;
        let items = vec![
            ref_json(self.join_ref),
            ref_json(self.reference),
            Json::Str(self.topic),
            Json::Str(self.event),
            self.payload,
        ];
        proof {
            lemma_models(items@);
            assert(models(items@) =~= frame_to_wire(model)->Array_0);
        }
        Json::Array(items)
    }

    /// The wire form of the frame.
    pub fn to_wire(&self) -> (w: Json)
        ensures
            w@ == frame_to_wire(self@),
    {
        let copy = PhoenixFrame {
            join_ref: self.join_ref.clone(),
            reference: self.reference.clone(),
            topic: self.topic.clone(),
            event: self.event.clone(),
            payload: self.payload.clone(),
        };
        copy.into_wire()
    }

    /// The frame that a wire value holds, or why it holds none.
    pub fn from_wire(wire: Json) -> (r: Result<PhoenixFrame, FrameError>)
        ensures
            match r {
                Ok(f) => frame_from_wire(wire@) == Ok::<FrameModel, FrameError>(f@),
                Err(e) => frame_from_wire(wire@) == Err::<FrameModel, FrameError>(e),
            },
    {
        let ghost w = wire@;
        match wire {
            Json::Array(mut items) => {
                let ghost received = items@;
                proof {
                    lemma_models(received);
                }
                if items.len() != 5 {
                    return Err(FrameError::WrongLength(items.len()));
                }
                let payload = items.pop().unwrap();
                let event = items.pop().unwrap();
                let topic = items.pop().unwrap();
                let reference = items.pop().unwrap();
                let join_ref = items.pop().unwrap();
                proof {
                    assert(join_ref == received[0]);
                    assert(reference == received[1]);
                    assert(topic == received[2]);
                    assert(event == received[3]);
                    assert(payload == received[4]);
                }
                Ok(
                    PhoenixFrame {
                        join_ref: json_text(join_ref),
                        reference: json_text(reference),
                        topic: json_text_or_empty(topic),
                        event: json_text_or_empty(event),
                        payload,
                    },
                )
            },
            _ => Err(FrameError::NotAnArray),
        }
    }
}

} // verus!
