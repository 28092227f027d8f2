//! The JSON objects that signaling messages travel as.
//!
//! A message is one flat JSON object and carries no tag: its kind is told by the names of its
//! members. Every member is required except those of an optional value, no other member may
//! be present, and no member may come twice.

use vstd::prelude::*;

use crate::utils::{SignalMessage, SignalMessageView};

verus! {

/// The value of one member of a JSON object, as far as signaling messages tell values apart.
#[derive(Debug, Clone, PartialEq, Eq)]
pub enum FieldValue {
    /// A string.
    Text(String),
    /// An integer that is not negative.
    Number(u64),
    /// The null.
    Null,
    /// Any other value: a boolean, another number, an array or an object.
    Other,
}

/// One member of a JSON object.
#[derive(Debug, Clone, PartialEq, Eq)]
pub struct Field {
    pub name: String,
    pub value: FieldValue,
}

/// What a [`FieldValue`] holds.
#[verifier::ext_equal]
pub enum FieldValueView {
    Text(Seq<char>),
    Number(u64),
    Null,
    Other,
}

/// What a [`Field`] holds.
#[verifier::ext_equal]
pub struct FieldView {
    pub name: Seq<char>,
    pub value: FieldValueView,
}

impl View for FieldValue {
    type V = FieldValueView;

    open spec fn view(&self) -> FieldValueView {
        match *self {
            FieldValue::Text(s) => FieldValueView::Text(s@),
            FieldValue::Number(n) => FieldValueView::Number(n),
            FieldValue::Null => FieldValueView::Null,
            FieldValue::Other => FieldValueView::Other,
        }
    }
}

impl View for Field {
    type V = FieldView;

    open spec fn view(&self) -> FieldView {
        FieldView { name: self.name@, value: self.value@ }
    }
}

/// The members of a JSON object, in their order.
pub open spec fn fields_view(fields: Seq<Field>) -> Seq<FieldView> {
    Seq::new(fields.len(), |i: int| fields[i]@)
}

/// No two members have the same name.
pub open spec fn names_once(fields: Seq<FieldView>) -> bool {
    forall|i: int, j: int|
        0 <= i < j < fields.len() ==> (#[trigger] fields[i]).name != (#[trigger] fields[j]).name
}

/// Every member's name is one of `names`.
pub open spec fn only_names(fields: Seq<FieldView>, names: Seq<Seq<char>>) -> bool {
    forall|i: int| 0 <= i < fields.len() ==> names.contains((#[trigger] fields[i]).name)
}

/// Some member has this name and this value.
pub open spec fn has_field(
    fields: Seq<FieldView>,
    name: Seq<char>,
    value: FieldValueView,
) -> bool {
    exists|i: int|
        0 <= i < fields.len() && (#[trigger] fields[i]).name == name && fields[i].value == value
}

/// Some member has this name.
pub open spec fn has_name(fields: Seq<FieldView>, name: Seq<char>) -> bool {
    exists|i: int| 0 <= i < fields.len() && (#[trigger] fields[i]).name == name
}

/// The member `name` stands for the optional value whose written form is `value`: a missing
/// value may be written as null or left out.
pub open spec fn has_optional(
    fields: Seq<FieldView>,
    name: Seq<char>,
    value: Option<FieldValueView>,
) -> bool {
    match value {
        Some(v) => has_field(fields, name, v),
        None => !has_name(fields, name) || has_field(fields, name, FieldValueView::Null),
    }
}

/// The written form of an optional string.
pub open spec fn optional_text(value: Option<Seq<char>>) -> Option<FieldValueView> {
    match value {
        Some(s) => Some(FieldValueView::Text(s)),
        None => None,
    }
}

/// The written form of an optional index.
pub open spec fn optional_number(value: Option<u16>) -> Option<FieldValueView> {
    match value {
        Some(n) => Some(FieldValueView::Number(n as u64)),
        None => None,
    }
}

/// The member names of each kind of message.
pub open spec fn names_of(message: SignalMessageView) -> Seq<Seq<char>> {
    match message {
        SignalMessageView::Register { .. } => seq!["from"@],
        SignalMessageView::Offer { .. } => seq!["sdp"@, "from"@, "offer_to"@],
        SignalMessageView::Answer { .. } => seq!["sdp"@, "from"@, "answer_to"@],
        SignalMessageView::Candidate { .. } => seq![
            "candidate"@,
            "sdp_mid"@,
            "sdp_mline_index"@,
            "from"@,
            "to"@,
        ],
        SignalMessageView::Video { .. } => seq!["from"@, "to"@],
        SignalMessageView::Ping { .. } => seq!["t"@],
    }
}

/// The members hold what the message says.
pub open spec fn values_match(fields: Seq<FieldView>, message: SignalMessageView) -> bool {
    match message {
        SignalMessageView::Register { from } => has_field(
            fields,
            "from"@,
            FieldValueView::Text(from),
        ),
        SignalMessageView::Offer { sdp, from, offer_to } => {
            &&& has_field(fields, "sdp"@, FieldValueView::Text(sdp))
            &&& has_field(fields, "from"@, FieldValueView::Text(from))
            &&& has_field(fields, "offer_to"@, FieldValueView::Text(offer_to))
        },
        SignalMessageView::Answer { sdp, from, answer_to } => {
            &&& has_field(fields, "sdp"@, FieldValueView::Text(sdp))
            &&& has_field(fields, "from"@, FieldValueView::Text(from))
            &&& has_field(fields, "answer_to"@, FieldValueView::Text(answer_to))
        },
        SignalMessageView::Candidate { candidate, sdp_mid, sdp_mline_index, from, to } => {
            &&& has_field(fields, "candidate"@, FieldValueView::Text(candidate))
            &&& has_optional(fields, "sdp_mid"@, optional_text(sdp_mid))
            &&& has_optional(fields, "sdp_mline_index"@, optional_number(sdp_mline_index))
            &&& has_field(fields, "from"@, FieldValueView::Text(from))
            &&& has_field(fields, "to"@, FieldValueView::Text(to))
        },
        SignalMessageView::Video { from, to } => {
            &&& has_field(fields, "from"@, FieldValueView::Text(from))
            &&& has_field(fields, "to"@, FieldValueView::Text(to))
        },
        SignalMessageView::Ping { t } => has_field(fields, "t"@, FieldValueView::Text(t)),
    }
}

/// The object with these members is the message.
pub open spec fn reads_as(fields: Seq<FieldView>, message: SignalMessageView) -> bool {
    &&& names_once(fields)
    &&& only_names(fields, names_of(message))
    &&& values_match(fields, message)
}

/// Whether a string holds the characters of a text.
fn same_text(a: &String, b: &str) -> (same: bool)
    ensures
        same == (a@ == b@),
{
    *a == b.to_string()
}

/// Whether no two members have the same name.
fn distinct_names(fields: &Vec<Field>) -> (distinct: bool)
    ensures
        distinct == names_once(fields_view(fields@)),
{
    let ghost view = fields_view(fields@);
    let mut i: usize = 0;
    while i < fields.len()
        invariant
            i <= fields.len(),
            view == fields_view(fields@),
            forall|a: int, b: int|
                0 <= a < b < view.len() && a < i ==> (#[trigger] view[a]).name != (
                #[trigger] view[b]).name,
        decreases fields.len() - i,
    {
        let mut j: usize = i + 1;
        while j < fields.len()
            invariant
                i < j <= fields.len(),
                view == fields_view(fields@),
                forall|b: int|
                    i < b < j ==> view[i as int].name != (#[trigger] view[b]).name,
            decreases fields.len() - j,
        {
            if fields[i].name == fields[j].name {
                assert(view[i as int].name == view[j as int].name);
                return false;
            }
            j = j + 1;
        }
        i = i + 1;
    }
    true
}

/// Whether every member's name is one of `names`.
fn names_within(fields: &Vec<Field>, names: &Vec<&str>) -> (within: bool)
    ensures
        within == only_names(fields_view(fields@), Seq::new(names@.len(), |i: int| names@[i]@)),
{
    let ghost view = fields_view(fields@);
    let ghost allowed = Seq::new(names@.len(), |i: int| names@[i]@);
    let mut i: usize = 0;
    while i < fields.len()
        invariant
            i <= fields.len(),
            view == fields_view(fields@),
            allowed == Seq::new(names@.len(), |i: int| names@[i]@),
            forall|a: int| 0 <= a < i ==> allowed.contains((#[trigger] view[a]).name),
        decreases fields.len() - i,
    {
        let mut found = false;
        let mut j: usize = 0;
        while j < names.len()
            invariant
                i < fields.len(),
                j <= names.len(),
                view == fields_view(fields@),
                allowed == Seq::new(names@.len(), |i: int| names@[i]@),
                found == (exists|b: int| 0 <= b < j && allowed[b] == view[i as int].name),
            decreases names.len() - j,
        {
            if same_text(&fields[i].name, names[j]) {
                assert(allowed[j as int] == view[i as int].name);
                found = true;
            }
            j = j + 1;
        }
        if !found {
            assert(!allowed.contains(view[i as int].name));
            return false;
        }
        i = i + 1;
    }
    true
}

/// The first member with this name.
fn find_field<'a>(fields: &'a Vec<Field>, name: &str) -> (found: Option<&'a FieldValue>)
    ensures
        match found {
            Some(value) => has_field(fields_view(fields@), name@, value@),
            None => !has_name(fields_view(fields@), name@),
        },
{
    let ghost view = fields_view(fields@);
    let mut i: usize = 0;
    while i < fields.len()
        invariant
            i <= fields.len(),
            view == fields_view(fields@),
            forall|a: int| 0 <= a < i ==> (#[trigger] view[a]).name != name@,
        decreases fields.len() - i,
    {
        if same_text(&fields[i].name, name) {
            assert(view[i as int].name == name@ && view[i as int].value == fields[i as int].value@);
            return Some(&fields[i].value);
        }
        i = i + 1;
    }
    None
}

/// Where names are not repeated, a name has one value.
proof fn lemma_value_unique(
    fields: Seq<FieldView>,
    name: Seq<char>,
    a: FieldValueView,
    b: FieldValueView,
)
    requires
        names_once(fields),
        has_field(fields, name, a),
        has_field(fields, name, b),
    ensures
        a == b,
{
    let i = choose|i: int|
        0 <= i < fields.len() && (#[trigger] fields[i]).name == name && fields[i].value == a;
    let j = choose|j: int|
        0 <= j < fields.len() && (#[trigger] fields[j]).name == name && fields[j].value == b;
    if i < j {
        assert(fields[i].name != fields[j].name);
    } else if j < i {
        assert(fields[j].name != fields[i].name);
    }
}

/// The string under a name that must be present.
fn text_of(fields: &Vec<Field>, name: &str) -> (text: Option<String>)
    requires
        names_once(fields_view(fields@)),
    ensures
        match text {
            Some(s) => has_field(fields_view(fields@), name@, FieldValueView::Text(s@)),
            None => forall|s: Seq<char>|
                !(#[trigger] has_field(fields_view(fields@), name@, FieldValueView::Text(s))),
        },
{
    let ghost view = fields_view(fields@);
    match find_field(fields, name) {
        Some(FieldValue::Text(s)) => Some(s.clone()),
        Some(value) => {
            proof {
                assert forall|s: Seq<char>|
                    !(#[trigger] has_field(view, name@, FieldValueView::Text(s))) by {
                    if has_field(view, name@, FieldValueView::Text(s)) {
                        lemma_value_unique(view, name@, value@, FieldValueView::Text(s));
                    }
                }
            }
            None
        },
        None => None,
    }
}

/// The string under a name that may be absent; `None` where the member fits no string.
fn optional_text_of(fields: &Vec<Field>, name: &str) -> (text: Option<Option<String>>)
    requires
        names_once(fields_view(fields@)),
    ensures
        match text {
            Some(t) => has_optional(
                fields_view(fields@),
                name@,
                optional_text(crate::utils::opt_chars(t)),
            ),
            None => forall|t: Option<Seq<char>>|
                !has_optional(fields_view(fields@), name@, #[trigger] optional_text(t)),
        },
{
    let ghost view = fields_view(fields@);
    match find_field(fields, name) {
        None => Some(None),
        Some(FieldValue::Null) => Some(None),
        Some(FieldValue::Text(s)) => Some(Some(s.clone())),
        Some(value) => {
            proof {
                assert forall|t: Option<Seq<char>>|
                    !has_optional(view, name@, #[trigger] optional_text(t)) by {
                    if has_optional(view, name@, optional_text(t)) {
                        match t {
                            Some(s) => {
                                lemma_value_unique(view, name@, value@, FieldValueView::Text(s));
                            },
                            None => {
                                lemma_value_unique(view, name@, value@, FieldValueView::Null);
                            },
                        }
                    }
                }
            }
            None
        },
    }
}

/// The index under a name that may be absent; `None` where the member fits no index.
fn optional_number_of(fields: &Vec<Field>, name: &str) -> (number: Option<Option<u16>>)
    requires
        names_once(fields_view(fields@)),
    ensures
        match number {
            Some(n) => has_optional(fields_view(fields@), name@, optional_number(n)),
            None => forall|n: Option<u16>|
                !has_optional(fields_view(fields@), name@, #[trigger] optional_number(n)),
        },
{
    let ghost view = fields_view(fields@);
    match find_field(fields, name) {
        None => Some(None),
        Some(FieldValue::Null) => Some(None),
        Some(value) => {
            if let FieldValue::Number(n) = value {
                if *n <= 0xffff {
                    return Some(Some(*n as u16));
                }
            }
            proof {
                assert forall|n: Option<u16>|
                    !has_optional(view, name@, #[trigger] optional_number(n)) by {
                    if has_optional(view, name@, optional_number(n)) {
                        match n {
                            Some(k) => {
                                lemma_value_unique(
                                    view,
                                    name@,
                                    value@,
                                    FieldValueView::Number(k as u64),
                                );
                            },
                            None => {
                                lemma_value_unique(view, name@, value@, FieldValueView::Null);
                            },
                        }
                    }
                }
            }
            None
        },
    }
}

fn read_register(fields: &Vec<Field>) -> (message: Option<SignalMessage>)
    requires
        names_once(fields_view(fields@)),
    ensures
        message matches Some(m) ==> reads_as(fields_view(fields@), m@),
        message is None ==> forall|m: SignalMessageView|
            m is Register ==> !#[trigger] reads_as(fields_view(fields@), m),
{
    let names: Vec<&str> = vec!["from"];
    assert(Seq::new(names@.len(), |i: int| names@[i]@) =~= seq!["from"@]);
    if !names_within(fields, &names) {
        return None;
    }
    match text_of(fields, "from") {
        Some(from) => Some(SignalMessage::Register { from }),
        None => None,
    }
}

fn read_offer(fields: &Vec<Field>) -> (message: Option<SignalMessage>)
    requires
        names_once(fields_view(fields@)),
    ensures
        message matches Some(m) ==> reads_as(fields_view(fields@), m@),
        message is None ==> forall|m: SignalMessageView|
            m is Offer ==> !#[trigger] reads_as(fields_view(fields@), m),
{
    let names: Vec<&str> = vec!["sdp", "from", "offer_to"];
    assert(Seq::new(names@.len(), |i: int| names@[i]@) =~= seq!["sdp"@, "from"@, "offer_to"@]);
    if !names_within(fields, &names) {
        return None;
    }
    match (text_of(fields, "sdp"), text_of(fields, "from"), text_of(fields, "offer_to")) {
        (Some(sdp), Some(from), Some(offer_to)) => Some(
            SignalMessage::Offer { sdp, from, offer_to },
        ),
        _ => None,
    }
}

fn read_answer(fields: &Vec<Field>) -> (message: Option<SignalMessage>)
    requires
        names_once(fields_view(fields@)),
    ensures
        message matches Some(m) ==> reads_as(fields_view(fields@), m@),
        message is None ==> forall|m: SignalMessageView|
            m is Answer ==> !#[trigger] reads_as(fields_view(fields@), m),
{
    let names: Vec<&str> = vec!["sdp", "from", "answer_to"];
    assert(Seq::new(names@.len(), |i: int| names@[i]@) =~= seq!["sdp"@, "from"@, "answer_to"@]);
    if !names_within(fields, &names) {
        return None;
    }
    match (text_of(fields, "sdp"), text_of(fields, "from"), text_of(fields, "answer_to")) {
        (Some(sdp), Some(from), Some(answer_to)) => Some(
            SignalMessage::Answer { sdp, from, answer_to },
        ),
        _ => None,
    }
}

fn read_candidate(fields: &Vec<Field>) -> (message: Option<SignalMessage>)
    requires
        names_once(fields_view(fields@)),
    ensures
        message matches Some(m) ==> reads_as(fields_view(fields@), m@),
        message is None ==> forall|m: SignalMessageView|
            m is Candidate ==> !#[trigger] reads_as(fields_view(fields@), m),
{
    let names: Vec<&str> = vec!["candidate", "sdp_mid", "sdp_mline_index", "from", "to"];
    assert(Seq::new(names@.len(), |i: int| names@[i]@) =~= seq![
        "candidate"@,
        "sdp_mid"@,
        "sdp_mline_index"@,
        "from"@,
        "to"@,
    ]);
    if !names_within(fields, &names) {
        return None;
    }
    let candidate = match text_of(fields, "candidate") {
        Some(candidate) => candidate,
        None => return None,
    };
    let sdp_mid = match optional_text_of(fields, "sdp_mid") {
        Some(sdp_mid) => sdp_mid,
        None => return None,
    };
    let sdp_mline_index = match optional_number_of(fields, "sdp_mline_index") {
        Some(sdp_mline_index) => sdp_mline_index,
        None => return None,
    };
    match (text_of(fields, "from"), text_of(fields, "to")) {
        (Some(from), Some(to)) => Some(
            SignalMessage::Candidate { candidate, sdp_mid, sdp_mline_index, from, to },
        ),
        _ => None,
    }
}

fn read_video(fields: &Vec<Field>) -> (message: Option<SignalMessage>)
    requires
        names_once(fields_view(fields@)),
    ensures
        message matches Some(m) ==> reads_as(fields_view(fields@), m@),
        message is None ==> forall|m: SignalMessageView|
            m is Video ==> !#[trigger] reads_as(fields_view(fields@), m),
{
    let names: Vec<&str> = vec!["from", "to"];
    assert(Seq::new(names@.len(), |i: int| names@[i]@) =~= seq!["from"@, "to"@]);
    if !names_within(fields, &names) {
        return None;
    }
    match (text_of(fields, "from"), text_of(fields, "to")) {
        (Some(from), Some(to)) => Some(SignalMessage::Video { from, to }),
        _ => None,
    }
}

fn read_ping(fields: &Vec<Field>) -> (message: Option<SignalMessage>)
    requires
        names_once(fields_view(fields@)),
    ensures
        message matches Some(m) ==> reads_as(fields_view(fields@), m@),
        message is None ==> forall|m: SignalMessageView|
            m is Ping ==> !#[trigger] reads_as(fields_view(fields@), m),
{
    let names: Vec<&str> = vec!["t"];
    assert(Seq::new(names@.len(), |i: int| names@[i]@) =~= seq!["t"@]);
    if !names_within(fields, &names) {
        return None;
    }
    match text_of(fields, "t") {
        Some(t) => Some(SignalMessage::Ping { t }),
        None => None,
    }
}

/// Reads the message that a JSON object with these members is. There is none exactly where
/// the members are those of no message.
pub fn from_fields(fields: &Vec<Field>) -> (message: Option<SignalMessage>)
    ensures
        match message {
            Some(m) => reads_as(fields_view(fields@), m@),
            None => forall|m: SignalMessageView| !#[trigger] reads_as(fields_view(fields@), m),
        },
{
    if !distinct_names(fields) {
        return None;
    }
    if let Some(message) = read_register(fields) {
        return Some(message);
    }
    if let Some(message) = read_offer(fields) {
        return Some(message);
    }
    if let Some(message) = read_answer(fields) {
        return Some(message);
    }
    if let Some(message) = read_candidate(fields) {
        return Some(message);
    }
    if let Some(message) = read_video(fields) {
        return Some(message);
    }
    read_ping(fields)
}

/// The member of that name that holds a string.
pub open spec fn text_field(name: Seq<char>, text: Seq<char>) -> FieldView {
    FieldView { name, value: FieldValueView::Text(text) }
}

/// The member of that name that holds an optional value, null where there is none.
pub open spec fn nullable_field(name: Seq<char>, value: Option<FieldValueView>) -> FieldView {
    FieldView {
        name,
        value: match value {
            Some(v) => v,
            None => FieldValueView::Null,
        },
    }
}

/// The members that a message is written as, in order.
pub open spec fn written(message: SignalMessageView) -> Seq<FieldView> {
    match message {
        SignalMessageView::Register { from } => seq![text_field("from"@, from)],
        SignalMessageView::Offer { sdp, from, offer_to } => seq![
            text_field("sdp"@, sdp),
            text_field("from"@, from),
            text_field("offer_to"@, offer_to),
        ],
        SignalMessageView::Answer { sdp, from, answer_to } => seq![
            text_field("sdp"@, sdp),
            text_field("from"@, from),
            text_field("answer_to"@, answer_to),
        ],
        SignalMessageView::Candidate { candidate, sdp_mid, sdp_mline_index, from, to } => seq![
            text_field("candidate"@, candidate),
            nullable_field("sdp_mid"@, optional_text(sdp_mid)),
            nullable_field("sdp_mline_index"@, optional_number(sdp_mline_index)),
            text_field("from"@, from),
            text_field("to"@, to),
        ],
        SignalMessageView::Video { from, to } => seq![
            text_field("from"@, from),
            text_field("to"@, to),
        ],
        SignalMessageView::Ping { t } => seq![text_field("t"@, t)],
    }
}

fn text_member(name: &str, text: &String) -> (field: Field)
    ensures
        field@ == text_field(name@, text@),
{
    Field { name: name.to_string(), value: FieldValue::Text(text.clone()) }
}

/// Writes a message as the members of a JSON object.
pub fn to_fields(message: &SignalMessage) -> (fields: Vec<Field>)
    ensures
        fields_view(fields@) == written(message@),
{
    let fields = match message {
        SignalMessage::Register { from } => vec![text_member("from", from)],
        SignalMessage::Offer { sdp, from, offer_to } => vec![
            text_member("sdp", sdp),
            text_member("from", from),
            text_member("offer_to", offer_to),
        ],
        SignalMessage::Answer { sdp, from, answer_to } => vec![
            text_member("sdp", sdp),
            text_member("from", from),
            text_member("answer_to", answer_to),
        ],
        SignalMessage::Candidate { candidate, sdp_mid, sdp_mline_index, from, to } => {
            let mid = match sdp_mid {
                Some(mid) => FieldValue::Text(mid.clone()),
                None => FieldValue::Null,
            };
            let index = match sdp_mline_index {
                Some(index) => FieldValue::Number(*index as u64),
                None => FieldValue::Null,
            };
            vec![
                text_member("candidate", candidate),
                Field { name: "sdp_mid".to_string(), value: mid },
                Field { name: "sdp_mline_index".to_string(), value: index },
                text_member("from", from),
                text_member("to", to),
            ]
        },
        SignalMessage::Video { from, to } => vec![
            text_member("from", from),
            text_member("to", to),
        ],
        SignalMessage::Ping { t } => vec![text_member("t", t)],
    };
    assert(fields_view(fields@) =~= written(message@));
    fields
}

/// The member names of messages are different from one another.
proof fn lemma_names_differ()
    ensures
        "from"@ != "sdp"@,
        "from"@ != "to"@,
        "from"@ != "t"@,
        "from"@ != "candidate"@,
        "from"@ != "offer_to"@,
        "from"@ != "answer_to"@,
        "from"@ != "sdp_mid"@,
        "from"@ != "sdp_mline_index"@,
        "sdp"@ != "to"@,
        "sdp"@ != "t"@,
        "sdp"@ != "candidate"@,
        "sdp"@ != "offer_to"@,
        "sdp"@ != "answer_to"@,
        "to"@ != "t"@,
        "to"@ != "candidate"@,
        "to"@ != "offer_to"@,
        "to"@ != "answer_to"@,
        "to"@ != "sdp_mid"@,
        "to"@ != "sdp_mline_index"@,
        "t"@ != "candidate"@,
        "t"@ != "offer_to"@,
        "t"@ != "answer_to"@,
        "offer_to"@ != "answer_to"@,
        "offer_to"@ != "candidate"@,
        "answer_to"@ != "candidate"@,
        "candidate"@ != "sdp_mid"@,
        "candidate"@ != "sdp_mline_index"@,
        "sdp_mid"@ != "sdp_mline_index"@,
{
    reveal_strlit("from");
    reveal_strlit("sdp");
    reveal_strlit("to");
    reveal_strlit("t");
    reveal_strlit("candidate");
    reveal_strlit("offer_to");
    reveal_strlit("answer_to");
    reveal_strlit("sdp_mid");
    reveal_strlit("sdp_mline_index");
    assert("from"@.len() == 4);
    assert("sdp"@.len() == 3);
    assert("to"@.len() == 2);
    assert("t"@.len() == 1);
    assert("candidate"@.len() == 9);
    assert("offer_to"@.len() == 8);
    assert("answer_to"@.len() == 9);
    assert("sdp_mid"@.len() == 7);
    assert("sdp_mline_index"@.len() == 15);
    assert("answer_to"@[0] != "candidate"@[0]);
}

/// The members that a message is written as are a reading of it.
proof fn lemma_written_reads(message: SignalMessageView)
    ensures
        reads_as(written(message), message),
{
    lemma_names_differ();
    let fields = written(message);
    let names = names_of(message);
    assert(fields.len() == names.len());
    assert(forall|i: int| 0 <= i < fields.len() ==> (#[trigger] fields[i]).name == names[i]);
    match message {
        SignalMessageView::Register { from } => {
            assert(fields[0] == text_field("from"@, from));
        },
        SignalMessageView::Offer { sdp, from, offer_to } => {
            assert(fields[0] == text_field("sdp"@, sdp));
            assert(fields[1] == text_field("from"@, from));
            assert(fields[2] == text_field("offer_to"@, offer_to));
        },
        SignalMessageView::Answer { sdp, from, answer_to } => {
            assert(fields[0] == text_field("sdp"@, sdp));
            assert(fields[1] == text_field("from"@, from));
            assert(fields[2] == text_field("answer_to"@, answer_to));
        },
        SignalMessageView::Candidate { candidate, sdp_mid, sdp_mline_index, from, to } => {
            assert(fields[0] == text_field("candidate"@, candidate));
            assert(fields[1] == nullable_field("sdp_mid"@, optional_text(sdp_mid)));
            assert(fields[2] == nullable_field(
                "sdp_mline_index"@,
                optional_number(sdp_mline_index),
            ));
            assert(fields[3] == text_field("from"@, from));
            assert(fields[4] == text_field("to"@, to));
        },
        SignalMessageView::Video { from, to } => {
            assert(fields[0] == text_field("from"@, from));
            assert(fields[1] == text_field("to"@, to));
        },
        SignalMessageView::Ping { t } => {
            assert(fields[0] == text_field("t"@, t));
        },
    }
}

/// The members that a message cannot do without.
spec fn required_names(message: SignalMessageView) -> Seq<Seq<char>> {
    match message {
        SignalMessageView::Candidate { .. } => seq!["candidate"@, "from"@, "to"@],
        _ => names_of(message),
    }
}

/// A required member of one reading is among the names that another reading allows.
proof fn lemma_required_is_allowed(
    fields: Seq<FieldView>,
    a: SignalMessageView,
    b: SignalMessageView,
    name: Seq<char>,
)
    requires
        reads_as(fields, a),
        reads_as(fields, b),
        required_names(a).contains(name),
    ensures
        names_of(b).contains(name),
{
    assert(has_name(fields, name));
    let i = choose|i: int| 0 <= i < fields.len() && (#[trigger] fields[i]).name == name;
    assert(names_of(b).contains(fields[i].name));
}

/// Two readings of one object are of the same kind.
proof fn lemma_same_kind(fields: Seq<FieldView>, a: SignalMessageView, b: SignalMessageView)
    requires
        reads_as(fields, a),
        reads_as(fields, b),
    ensures
        names_of(a) == names_of(b),
{
    lemma_names_differ();
    let ra = required_names(a);
    let rb = required_names(b);
    assert forall|k: int| 0 <= k < ra.len() implies names_of(b).contains(#[trigger] ra[k]) by {
        lemma_required_is_allowed(fields, a, b, ra[k]);
    }
    assert forall|k: int| 0 <= k < rb.len() implies names_of(a).contains(#[trigger] rb[k]) by {
        lemma_required_is_allowed(fields, b, a, rb[k]);
    }
    assert(names_of(b).contains(ra[0]));
    assert(names_of(a).contains(rb[0]));
    assert(names_of(b).contains(ra[ra.len() - 1]));
    assert(names_of(a).contains(rb[rb.len() - 1]));
}

/// An object is at most one message: no two kinds have the same members, and the members fix
/// what the message says.
pub proof fn object_is_one_message(
    fields: Seq<FieldView>,
    a: SignalMessageView,
    b: SignalMessageView,
)
    requires
        reads_as(fields, a),
        reads_as(fields, b),
    ensures
        a == b,
{
    lemma_names_differ();
    lemma_same_kind(fields, a, b);
}

/// A message that is written reads back as itself, and as nothing else.
pub proof fn written_message_reads_back(message: SignalMessageView)
    ensures
        reads_as(written(message), message),
        forall|m: SignalMessageView| #[trigger] reads_as(written(message), m) ==> m == message,
{
    lemma_written_reads(message);
    assert forall|m: SignalMessageView| #[trigger] reads_as(written(message), m) implies m
        == message by {
        object_is_one_message(written(message), m, message);
    }
}

/// The members of an object are seen as they are, in their order.
pub proof fn members_are_seen_as_they_are(fields: Seq<Field>)
    ensures
        fields_view(fields).len() == fields.len(),
        forall|i: int|
            0 <= i < fields.len() ==> {
                &&& (#[trigger] fields_view(fields)[i]).name == fields[i].name@
                &&& fields[i].value is Text ==> fields_view(fields)[i].value
                    == FieldValueView::Text(fields[i].value->Text_0@)
                &&& fields[i].value is Number ==> fields_view(fields)[i].value
                    == FieldValueView::Number(fields[i].value->Number_0)
                &&& fields[i].value is Null ==> fields_view(fields)[i].value is Null
                &&& fields[i].value is Other ==> fields_view(fields)[i].value is Other
            },
{
}

/// What a registration looks like on the wire: it is written as a member for each of its fields,
/// the member of a name holding the field of that name, and an object reads as it exactly where
/// the object has those members, each once and no others, in any order.
pub proof fn register_on_the_wire(
    fields: Seq<FieldView>,
    from: Seq<char>,
)
    ensures
        written(SignalMessageView::Register { from })
            == seq![
            FieldView { name: "from"@, value: FieldValueView::Text(from) },
        ],
        reads_as(fields, SignalMessageView::Register { from }) <==> {
            &&& forall|i: int, j: int|
                0 <= i < j < fields.len() ==> (#[trigger] fields[i]).name != (
                #[trigger] fields[j]).name
            &&& forall|i: int|
                0 <= i < fields.len() ==> {
                    ||| (#[trigger] fields[i]).name == "from"@
                        && fields[i].value == FieldValueView::Text(from)
                }
            &&& exists|i: int|
                0 <= i < fields.len() && (#[trigger] fields[i]).name == "from"@
        },
{
    lemma_names_differ();
    let message = SignalMessageView::Register { from };
    let names = names_of(message);
    assert(names[0] == "from"@);
    if reads_as(fields, message) {
        assert forall|i: int| 0 <= i < fields.len() implies has_field(
            fields,
            (#[trigger] fields[i]).name,
            fields[i].value,
        ) by {}
        assert forall|i: int| 0 <= i < fields.len() implies {
            ||| (#[trigger] fields[i]).name == "from"@
                && fields[i].value == FieldValueView::Text(from)
        } by {
            let name = fields[i].name;
            let value = fields[i].value;
            assert(names.contains(name));
            if name == "from"@ {
                lemma_value_unique(fields, name, value, FieldValueView::Text(from));
            }
        }
    }
}

/// What an offer looks like on the wire: it is written as a member for each of its fields, the
/// member of a name holding the field of that name, and an object reads as it exactly where the
/// object has those members, each once and no others, in any order.
pub proof fn offer_on_the_wire(
    fields: Seq<FieldView>,
    sdp: Seq<char>,
    from: Seq<char>,
    offer_to: Seq<char>,
)
    ensures
        written(SignalMessageView::Offer { sdp, from, offer_to })
            == seq![
            FieldView { name: "sdp"@, value: FieldValueView::Text(sdp) },
            FieldView { name: "from"@, value: FieldValueView::Text(from) },
            FieldView { name: "offer_to"@, value: FieldValueView::Text(offer_to) },
        ],
        reads_as(fields, SignalMessageView::Offer { sdp, from, offer_to }) <==> {
            &&& forall|i: int, j: int|
                0 <= i < j < fields.len() ==> (#[trigger] fields[i]).name != (
                #[trigger] fields[j]).name
            &&& forall|i: int|
                0 <= i < fields.len() ==> {
                    ||| (#[trigger] fields[i]).name == "sdp"@
                        && fields[i].value == FieldValueView::Text(sdp)
                    ||| (#[trigger] fields[i]).name == "from"@
                        && fields[i].value == FieldValueView::Text(from)
                    ||| (#[trigger] fields[i]).name == "offer_to"@
                        && fields[i].value == FieldValueView::Text(offer_to)
                }
            &&& exists|i: int|
                0 <= i < fields.len() && (#[trigger] fields[i]).name == "sdp"@
            &&& exists|i: int|
                0 <= i < fields.len() && (#[trigger] fields[i]).name == "from"@
            &&& exists|i: int|
                0 <= i < fields.len() && (#[trigger] fields[i]).name == "offer_to"@
        },
{
    lemma_names_differ();
    let message = SignalMessageView::Offer { sdp, from, offer_to };
    let names = names_of(message);
    assert(names[0] == "sdp"@);
    assert(names[1] == "from"@);
    assert(names[2] == "offer_to"@);
    if reads_as(fields, message) {
        assert forall|i: int| 0 <= i < fields.len() implies has_field(
            fields,
            (#[trigger] fields[i]).name,
            fields[i].value,
        ) by {}
        assert forall|i: int| 0 <= i < fields.len() implies {
            ||| (#[trigger] fields[i]).name == "sdp"@
                && fields[i].value == FieldValueView::Text(sdp)
            ||| (#[trigger] fields[i]).name == "from"@
                && fields[i].value == FieldValueView::Text(from)
            ||| (#[trigger] fields[i]).name == "offer_to"@
                && fields[i].value == FieldValueView::Text(offer_to)
        } by {
            let name = fields[i].name;
            let value = fields[i].value;
            assert(names.contains(name));
            if name == "sdp"@ {
                lemma_value_unique(fields, name, value, FieldValueView::Text(sdp));
            }
            if name == "from"@ {
                lemma_value_unique(fields, name, value, FieldValueView::Text(from));
            }
            if name == "offer_to"@ {
                lemma_value_unique(fields, name, value, FieldValueView::Text(offer_to));
            }
        }
    }
}

/// What an answer looks like on the wire: it is written as a member for each of its fields, the
/// member of a name holding the field of that name, and an object reads as it exactly where the
/// object has those members, each once and no others, in any order.
pub proof fn answer_on_the_wire(
    fields: Seq<FieldView>,
    sdp: Seq<char>,
    from: Seq<char>,
    answer_to: Seq<char>,
)
    ensures
        written(SignalMessageView::Answer { sdp, from, answer_to })
            == seq![
            FieldView { name: "sdp"@, value: FieldValueView::Text(sdp) },
            FieldView { name: "from"@, value: FieldValueView::Text(from) },
            FieldView { name: "answer_to"@, value: FieldValueView::Text(answer_to) },
        ],
        reads_as(fields, SignalMessageView::Answer { sdp, from, answer_to }) <==> {
            &&& forall|i: int, j: int|
                0 <= i < j < fields.len() ==> (#[trigger] fields[i]).name != (
                #[trigger] fields[j]).name
            &&& forall|i: int|
                0 <= i < fields.len() ==> {
                    ||| (#[trigger] fields[i]).name == "sdp"@
                        && fields[i].value == FieldValueView::Text(sdp)
                    ||| (#[trigger] fields[i]).name == "from"@
                        && fields[i].value == FieldValueView::Text(from)
                    ||| (#[trigger] fields[i]).name == "answer_to"@
                        && fields[i].value == FieldValueView::Text(answer_to)
                }
            &&& exists|i: int|
                0 <= i < fields.len() && (#[trigger] fields[i]).name == "sdp"@
            &&& exists|i: int|
                0 <= i < fields.len() && (#[trigger] fields[i]).name == "from"@
            &&& exists|i: int|
                0 <= i < fields.len() && (#[trigger] fields[i]).name == "answer_to"@
        },
{
    lemma_names_differ();
    let message = SignalMessageView::Answer { sdp, from, answer_to };
    let names = names_of(message);
    assert(names[0] == "sdp"@);
    assert(names[1] == "from"@);
    assert(names[2] == "answer_to"@);
    if reads_as(fields, message) {
        assert forall|i: int| 0 <= i < fields.len() implies has_field(
            fields,
            (#[trigger] fields[i]).name,
            fields[i].value,
        ) by {}
        assert forall|i: int| 0 <= i < fields.len() implies {
            ||| (#[trigger] fields[i]).name == "sdp"@
                && fields[i].value == FieldValueView::Text(sdp)
            ||| (#[trigger] fields[i]).name == "from"@
                && fields[i].value == FieldValueView::Text(from)
            ||| (#[trigger] fields[i]).name == "answer_to"@
                && fields[i].value == FieldValueView::Text(answer_to)
        } by {
            let name = fields[i].name;
            let value = fields[i].value;
            assert(names.contains(name));
            if name == "sdp"@ {
                lemma_value_unique(fields, name, value, FieldValueView::Text(sdp));
            }
            if name == "from"@ {
                lemma_value_unique(fields, name, value, FieldValueView::Text(from));
            }
            if name == "answer_to"@ {
                lemma_value_unique(fields, name, value, FieldValueView::Text(answer_to));
            }
        }
    }
}

/// What a candidate looks like on the wire: it is written as a member for each of its fields, the
/// member of a name holding the field of that name, and an object reads as it exactly where the
/// object has those members, each once and no others, in any order. An optional member may be left
/// out where there is no value.
pub proof fn candidate_on_the_wire(
    fields: Seq<FieldView>,
    candidate: Seq<char>,
    sdp_mid: Option<Seq<char>>,
    sdp_mline_index: Option<u16>,
    from: Seq<char>,
    to: Seq<char>,
)
    ensures
        written(SignalMessageView::Candidate { candidate, sdp_mid, sdp_mline_index, from, to })
            == seq![
            FieldView { name: "candidate"@, value: FieldValueView::Text(candidate) },
            FieldView {
                name: "sdp_mid"@,
                value: (match sdp_mid {
                    Some(s) => FieldValueView::Text(s),
                    None => FieldValueView::Null,
                }),
            },
            FieldView {
                name: "sdp_mline_index"@,
                value: (match sdp_mline_index {
                    Some(n) => FieldValueView::Number(n as u64),
                    None => FieldValueView::Null,
                }),
            },
            FieldView { name: "from"@, value: FieldValueView::Text(from) },
            FieldView { name: "to"@, value: FieldValueView::Text(to) },
        ],
        reads_as(
            fields,
            SignalMessageView::Candidate { candidate, sdp_mid, sdp_mline_index, from, to },
        ) <==> {
            &&& forall|i: int, j: int|
                0 <= i < j < fields.len() ==> (#[trigger] fields[i]).name != (
                #[trigger] fields[j]).name
            &&& forall|i: int|
                0 <= i < fields.len() ==> {
                    ||| (#[trigger] fields[i]).name == "candidate"@
                        && fields[i].value == FieldValueView::Text(candidate)
                    ||| (#[trigger] fields[i]).name == "sdp_mid"@
                        && fields[i].value == (match sdp_mid {
                            Some(s) => FieldValueView::Text(s),
                            None => FieldValueView::Null,
                        })
                    ||| (#[trigger] fields[i]).name == "sdp_mline_index"@
                        && fields[i].value == (match sdp_mline_index {
                            Some(n) => FieldValueView::Number(n as u64),
                            None => FieldValueView::Null,
                        })
                    ||| (#[trigger] fields[i]).name == "from"@
                        && fields[i].value == FieldValueView::Text(from)
                    ||| (#[trigger] fields[i]).name == "to"@
                        && fields[i].value == FieldValueView::Text(to)
                }
            &&& exists|i: int|
                0 <= i < fields.len() && (#[trigger] fields[i]).name == "candidate"@
            &&& sdp_mid is Some ==> exists|i: int|
                0 <= i < fields.len() && (#[trigger] fields[i]).name == "sdp_mid"@
            &&& sdp_mline_index is Some ==> exists|i: int|
                0 <= i < fields.len() && (#[trigger] fields[i]).name == "sdp_mline_index"@
            &&& exists|i: int|
                0 <= i < fields.len() && (#[trigger] fields[i]).name == "from"@
            &&& exists|i: int|
                0 <= i < fields.len() && (#[trigger] fields[i]).name == "to"@
        },
{
    lemma_names_differ();
    let message = SignalMessageView::Candidate { candidate, sdp_mid, sdp_mline_index, from, to };
    let names = names_of(message);
    assert(names[0] == "candidate"@);
    assert(names[1] == "sdp_mid"@);
    assert(names[2] == "sdp_mline_index"@);
    assert(names[3] == "from"@);
    assert(names[4] == "to"@);
    if reads_as(fields, message) {
        assert forall|i: int| 0 <= i < fields.len() implies has_field(
            fields,
            (#[trigger] fields[i]).name,
            fields[i].value,
        ) by {}
        assert forall|i: int| 0 <= i < fields.len() implies {
            ||| (#[trigger] fields[i]).name == "candidate"@
                && fields[i].value == FieldValueView::Text(candidate)
            ||| (#[trigger] fields[i]).name == "sdp_mid"@
                && fields[i].value == (match sdp_mid {
                    Some(s) => FieldValueView::Text(s),
                    None => FieldValueView::Null,
                })
            ||| (#[trigger] fields[i]).name == "sdp_mline_index"@
                && fields[i].value == (match sdp_mline_index {
                    Some(n) => FieldValueView::Number(n as u64),
                    None => FieldValueView::Null,
                })
            ||| (#[trigger] fields[i]).name == "from"@
                && fields[i].value == FieldValueView::Text(from)
            ||| (#[trigger] fields[i]).name == "to"@
                && fields[i].value == FieldValueView::Text(to)
        } by {
            let name = fields[i].name;
            let value = fields[i].value;
            assert(names.contains(name));
            if name == "candidate"@ {
                lemma_value_unique(fields, name, value, FieldValueView::Text(candidate));
            }
            if name == "sdp_mid"@ {
                let held = (match sdp_mid {
                    Some(s) => FieldValueView::Text(s),
                    None => FieldValueView::Null,
                });
                lemma_value_unique(fields, name, value, held);
            }
            if name == "sdp_mline_index"@ {
                let held = (match sdp_mline_index {
                    Some(n) => FieldValueView::Number(n as u64),
                    None => FieldValueView::Null,
                });
                lemma_value_unique(fields, name, value, held);
            }
            if name == "from"@ {
                lemma_value_unique(fields, name, value, FieldValueView::Text(from));
            }
            if name == "to"@ {
                lemma_value_unique(fields, name, value, FieldValueView::Text(to));
            }
        }
    }
}

/// What a video request looks like on the wire: it is written as a member for each of its fields,
/// the member of a name holding the field of that name, and an object reads as it exactly where
/// the object has those members, each once and no others, in any order.
pub proof fn video_on_the_wire(
    fields: Seq<FieldView>,
    from: Seq<char>,
    to: Seq<char>,
)
    ensures
        written(SignalMessageView::Video { from, to })
            == seq![
            FieldView { name: "from"@, value: FieldValueView::Text(from) },
            FieldView { name: "to"@, value: FieldValueView::Text(to) },
        ],
        reads_as(fields, SignalMessageView::Video { from, to }) <==> {
            &&& forall|i: int, j: int|
                0 <= i < j < fields.len() ==> (#[trigger] fields[i]).name != (
                #[trigger] fields[j]).name
            &&& forall|i: int|
                0 <= i < fields.len() ==> {
                    ||| (#[trigger] fields[i]).name == "from"@
                        && fields[i].value == FieldValueView::Text(from)
                    ||| (#[trigger] fields[i]).name == "to"@
                        && fields[i].value == FieldValueView::Text(to)
                }
            &&& exists|i: int|
                0 <= i < fields.len() && (#[trigger] fields[i]).name == "from"@
            &&& exists|i: int|
                0 <= i < fields.len() && (#[trigger] fields[i]).name == "to"@
        },
{
    lemma_names_differ();
    let message = SignalMessageView::Video { from, to };
    let names = names_of(message);
    assert(names[0] == "from"@);
    assert(names[1] == "to"@);
    if reads_as(fields, message) {
        assert forall|i: int| 0 <= i < fields.len() implies has_field(
            fields,
            (#[trigger] fields[i]).name,
            fields[i].value,
        ) by {}
        assert forall|i: int| 0 <= i < fields.len() implies {
            ||| (#[trigger] fields[i]).name == "from"@
                && fields[i].value == FieldValueView::Text(from)
            ||| (#[trigger] fields[i]).name == "to"@
                && fields[i].value == FieldValueView::Text(to)
        } by {
            let name = fields[i].name;
            let value = fields[i].value;
            assert(names.contains(name));
            if name == "from"@ {
                lemma_value_unique(fields, name, value, FieldValueView::Text(from));
            }
            if name == "to"@ {
                lemma_value_unique(fields, name, value, FieldValueView::Text(to));
            }
        }
    }
}

/// What a ping looks like on the wire: it is written as a member for each of its fields, the
/// member of a name holding the field of that name, and an object reads as it exactly where the
/// object has those members, each once and no others, in any order.
pub proof fn ping_on_the_wire(
    fields: Seq<FieldView>,
    t: Seq<char>,
)
    ensures
        written(SignalMessageView::Ping { t })
            == seq![
            FieldView { name: "t"@, value: FieldValueView::Text(t) },
        ],
        reads_as(fields, SignalMessageView::Ping { t }) <==> {
            &&& forall|i: int, j: int|
                0 <= i < j < fields.len() ==> (#[trigger] fields[i]).name != (
                #[trigger] fields[j]).name
            &&& forall|i: int|
                0 <= i < fields.len() ==> {
                    ||| (#[trigger] fields[i]).name == "t"@
                        && fields[i].value == FieldValueView::Text(t)
                }
            &&& exists|i: int|
                0 <= i < fields.len() && (#[trigger] fields[i]).name == "t"@
        },
{
    lemma_names_differ();
    let message = SignalMessageView::Ping { t };
    let names = names_of(message);
    assert(names[0] == "t"@);
    if reads_as(fields, message) {
        assert forall|i: int| 0 <= i < fields.len() implies has_field(
            fields,
            (#[trigger] fields[i]).name,
            fields[i].value,
        ) by {}
        assert forall|i: int| 0 <= i < fields.len() implies {
            ||| (#[trigger] fields[i]).name == "t"@
                && fields[i].value == FieldValueView::Text(t)
        } by {
            let name = fields[i].name;
            let value = fields[i].value;
            assert(names.contains(name));
            if name == "t"@ {
                lemma_value_unique(fields, name, value, FieldValueView::Text(t));
            }
        }
    }
}

/// The order of the members does not matter: an object with the same members in another order
/// is the same message.
pub proof fn member_order_is_free(
    fields: Seq<FieldView>,
    reordered: Seq<FieldView>,
    message: SignalMessageView,
)
    requires
        reads_as(fields, message),
        reordered.to_multiset() == fields.to_multiset(),
    ensures
        reads_as(reordered, message),
{
    broadcast use vstd::seq_lib::group_to_multiset_ensures;

    assert forall|x: FieldView| fields.contains(x) == reordered.contains(x) by {
        assert(fields.contains(x) == (fields.to_multiset().count(x) > 0));
        assert(reordered.contains(x) == (reordered.to_multiset().count(x) > 0));
    }
    assert(fields.no_duplicates());
    fields.lemma_multiset_has_no_duplicates();
    reordered.lemma_multiset_has_no_duplicates_conv();
    assert(names_once(reordered)) by {
        assert forall|i: int, j: int| 0 <= i < j < reordered.len() implies (#[trigger] reordered[i]).name
            != (#[trigger] reordered[j]).name by {
            assert(fields.contains(reordered[i]) && fields.contains(reordered[j]));
            let a = fields.index_of(reordered[i]);
            let b = fields.index_of(reordered[j]);
            assert(fields[a] == reordered[i] && fields[b] == reordered[j]);
            assert(reordered[i] != reordered[j]);
            if a < b {
                assert(fields[a].name != fields[b].name);
            } else {
                assert(fields[b].name != fields[a].name);
            }
        }
    }
    assert(only_names(reordered, names_of(message))) by {
        assert forall|i: int| 0 <= i < reordered.len() implies names_of(message).contains(
            (#[trigger] reordered[i]).name,
        ) by {
            assert(fields.contains(reordered[i]));
            let a = fields.index_of(reordered[i]);
            assert(fields[a] == reordered[i]);
        }
    }
    assert forall|name: Seq<char>, value: FieldValueView|
        #[trigger] has_field(fields, name, value) implies has_field(reordered, name, value) by {
        let a = choose|a: int|
            0 <= a < fields.len() && (#[trigger] fields[a]).name == name && fields[a].value
                == value;
        assert(reordered.contains(fields[a]));
        let b = reordered.index_of(fields[a]);
        assert(reordered[b] == fields[a]);
    }
    assert forall|name: Seq<char>| #[trigger] has_name(reordered, name) implies has_name(
        fields,
        name,
    ) by {
        let b = choose|b: int|
            0 <= b < reordered.len() && (#[trigger] reordered[b]).name == name;
        assert(fields.contains(reordered[b]));
        let a = fields.index_of(reordered[b]);
        assert(fields[a] == reordered[b]);
    }
}

} // verus!
