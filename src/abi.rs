//! ABI entries: a kind tag beside the payload's own fields in one JSON object.
use vstd::prelude::*;
use crate::error::DecodeError;
use crate::json::{fields_view, json_get, json_get_str, opt_string_view, views_of, Json, JsonValue};

verus! {

/// The `type` tag of an ABI entry.
#[derive(Clone, Copy, Debug, PartialEq, Eq, Structural)]
pub enum AbiEntryType {
    Function,
    Constructor,
    L1Handler,
    Event,
    Struct,
}

/// A named, typed parameter: `{"name": .., "type": ..}`.
#[derive(Clone, Debug, PartialEq, Eq)]
pub struct TypedParameter {
    pub name: String,
    pub param_type: String,
}

/// A struct member: a typed parameter and its offset (a JSON number, as text).
#[derive(Clone, Debug, PartialEq, Eq)]
pub struct StructMember {
    pub name: String,
    pub param_type: String,
    pub offset: String,
}

/// The shape shared by functions, constructors and L1 handlers.
#[derive(Clone, Debug, PartialEq, Eq)]
pub struct FunctionAbiEntry {
    pub name: String,
    pub inputs: Vec<TypedParameter>,
    pub outputs: Vec<TypedParameter>,
    pub state_mutability: Option<String>,
}

#[derive(Clone, Debug, PartialEq, Eq)]
pub struct EventAbiEntry {
    pub name: String,
    pub keys: Vec<TypedParameter>,
    pub data: Vec<TypedParameter>,
}

/// A struct; its size is a JSON number, kept as text.
#[derive(Clone, Debug, PartialEq, Eq)]
pub struct StructAbiEntry {
    pub name: String,
    pub size: String,
    pub members: Vec<StructMember>,
}

#[derive(Clone, Debug, PartialEq, Eq)]
pub enum AbiEntry {
    Function(FunctionAbiEntry),
    Event(EventAbiEntry),
    Struct(StructAbiEntry),
}

/// An ABI entry with its kind tag.
#[derive(Clone, Debug, PartialEq, Eq)]
pub struct ContractClassAbiEntryWithType {
    pub entry: AbiEntry,
    pub entry_type: AbiEntryType,
}

pub type ParamView = (Seq<char>, Seq<char>);

pub type MemberView = (Seq<char>, Seq<char>, Seq<char>);

/// The mathematical form of an ABI entry's payload.
pub enum AbiEntryView {
    Function {
        name: Seq<char>,
        inputs: Seq<ParamView>,
        outputs: Seq<ParamView>,
        state_mutability: Option<Seq<char>>,
    },
    Event { name: Seq<char>, keys: Seq<ParamView>, data: Seq<ParamView> },
    Struct { name: Seq<char>, size: Seq<char>, members: Seq<MemberView> },
}

impl View for TypedParameter {
    type V = ParamView;

    open spec fn view(&self) -> ParamView {
        (self.name@, self.param_type@)
    }
}

impl View for StructMember {
    type V = MemberView;

    open spec fn view(&self) -> MemberView {
        (self.name@, self.param_type@, self.offset@)
    }
}

pub open spec fn params_view(ps: Seq<TypedParameter>) -> Seq<ParamView> {
    ps.map_values(|p: TypedParameter| p@)
}

pub open spec fn members_view(ms: Seq<StructMember>) -> Seq<MemberView> {
    ms.map_values(|m: StructMember| m@)
}

impl View for AbiEntry {
    type V = AbiEntryView;

    open spec fn view(&self) -> AbiEntryView {
        match self {
            AbiEntry::Function(f) => AbiEntryView::Function {
                name: f.name@,
                inputs: params_view(f.inputs@),
                outputs: params_view(f.outputs@),
                state_mutability: opt_string_view(f.state_mutability),
            },
            AbiEntry::Event(e) => AbiEntryView::Event {
                name: e.name@,
                keys: params_view(e.keys@),
                data: params_view(e.data@),
            },
            AbiEntry::Struct(s) => AbiEntryView::Struct {
                name: s.name@,
                size: s.size@,
                members: members_view(s.members@),
            },
        }
    }
}

impl View for ContractClassAbiEntryWithType {
    type V = (AbiEntryView, AbiEntryType);

    open spec fn view(&self) -> (AbiEntryView, AbiEntryType) {
        (self.entry@, self.entry_type)
    }
}

/// The member `k` when it is a number, as its text.
pub open spec fn json_get_number(v: Json, k: Seq<char>) -> Option<Seq<char>> {
    match json_get(v, k) {
        Some(Json::Number(s)) => Some(s),
        _ => None,
    }
}

/// The kind that a `type` tag names.
pub open spec fn abi_type_of(t: Seq<char>) -> Option<AbiEntryType> {
    if t == "function"@ {
        Some(AbiEntryType::Function)
    } else if t == "constructor"@ {
        Some(AbiEntryType::Constructor)
    } else if t == "l1_handler"@ {
        Some(AbiEntryType::L1Handler)
    } else if t == "event"@ {
        Some(AbiEntryType::Event)
    } else if t == "struct"@ {
        Some(AbiEntryType::Struct)
    } else {
        None
    }
}

pub open spec fn param_of(v: Json) -> Option<ParamView> {
    match (json_get_str(v, "name"@), json_get_str(v, "type"@)) {
        (Some(n), Some(t)) => Some((n, t)),
        _ => None,
    }
}

pub open spec fn params_of(xs: Seq<Json>) -> Option<Seq<ParamView>>
    decreases xs.len(),
{
    if xs.len() == 0 {
        Some(Seq::empty())
    } else {
        match (params_of(xs.drop_last()), param_of(xs.last())) {
            (Some(p), Some(x)) => Some(p.push(x)),
            _ => None,
        }
    }
}

/// A parameter list under `k`; an absent member is the empty list.
pub open spec fn param_list_of(v: Json, k: Seq<char>) -> Option<Seq<ParamView>> {
    match json_get(v, k) {
        None => Some(Seq::empty()),
        Some(Json::Array(xs)) => params_of(xs),
        Some(_) => None,
    }
}

pub open spec fn member_of(v: Json) -> Option<MemberView> {
    match (json_get_str(v, "name"@), json_get_str(v, "type"@), json_get_number(v, "offset"@)) {
        (Some(n), Some(t), Some(o)) => Some((n, t, o)),
        _ => None,
    }
}

pub open spec fn members_of(xs: Seq<Json>) -> Option<Seq<MemberView>>
    decreases xs.len(),
{
    if xs.len() == 0 {
        Some(Seq::empty())
    } else {
        match (members_of(xs.drop_last()), member_of(xs.last())) {
            (Some(p), Some(x)) => Some(p.push(x)),
            _ => None,
        }
    }
}

/// An optional string member: absent is `None`, a string is `Some`, anything
/// else does not decode.
pub open spec fn opt_str_of(v: Json, k: Seq<char>) -> Option<Option<Seq<char>>> {
    match json_get(v, k) {
        None => Some(None),
        Some(Json::Str(s)) => Some(Some(s)),
        Some(_) => None,
    }
}

pub open spec fn function_of(v: Json) -> Option<AbiEntryView> {
    match (
        json_get_str(v, "name"@),
        param_list_of(v, "inputs"@),
        param_list_of(v, "outputs"@),
        opt_str_of(v, "stateMutability"@),
    ) {
        (Some(n), Some(i), Some(o), Some(m)) => Some(
            AbiEntryView::Function { name: n, inputs: i, outputs: o, state_mutability: m },
        ),
        _ => None,
    }
}

pub open spec fn event_of(v: Json) -> Option<AbiEntryView> {
    match (json_get_str(v, "name"@), param_list_of(v, "keys"@), param_list_of(v, "data"@)) {
        (Some(n), Some(k), Some(d)) => Some(AbiEntryView::Event { name: n, keys: k, data: d }),
        _ => None,
    }
}

pub open spec fn struct_of(v: Json) -> Option<AbiEntryView> {
    match (json_get_str(v, "name"@), json_get_number(v, "size"@), json_get(v, "members"@)) {
        (Some(n), Some(s), Some(Json::Array(xs))) => match members_of(xs) {
            Some(m) => Some(AbiEntryView::Struct { name: n, size: s, members: m }),
            None => None,
        },
        _ => None,
    }
}

/// The payload of the shape that a kind selects.
pub open spec fn abi_payload_of(v: Json, k: AbiEntryType) -> Option<AbiEntryView> {
    match k {
        AbiEntryType::Event => event_of(v),
        AbiEntryType::Struct => struct_of(v),
        _ => function_of(v),
    }
}

/// Decoding of an ABI entry: read the `type` tag, then the payload of the
/// shape it selects from the same object.
pub open spec fn abi_entry_of(v: Json) -> Result<(AbiEntryView, AbiEntryType), DecodeError> {
    match json_get_str(v, "type"@) {
        None => Err(DecodeError::MissingRequiredField),
        Some(t) => match abi_type_of(t) {
            None => Err(DecodeError::UnknownAbiEntryType),
            Some(k) => match abi_payload_of(v, k) {
                Some(e) => Ok((e, k)),
                None => Err(DecodeError::MissingRequiredField),
            },
        },
    }
}

fn abi_type_from(t: &String) -> (r: Option<AbiEntryType>)
    ensures
        r == abi_type_of(t@),
{
    if *t == String::from_str("function") {
        Some(AbiEntryType::Function)
    } else if *t == String::from_str("constructor") {
        Some(AbiEntryType::Constructor)
    } else if *t == String::from_str("l1_handler") {
        Some(AbiEntryType::L1Handler)
    } else if *t == String::from_str("event") {
        Some(AbiEntryType::Event)
    } else if *t == String::from_str("struct") {
        Some(AbiEntryType::Struct)
    } else {
        None
    }
}

fn get_number(v: &JsonValue, key: &str) -> (r: Option<String>)
    ensures
        opt_string_view(r) == json_get_number(v.view(), key@),
{
    match v.get(key) {
        Some(JsonValue::Number(s)) => Some(s.clone()),
        _ => None,
    }
}

fn decode_param(v: &JsonValue) -> (r: Option<TypedParameter>)
    ensures
        match r {
            Some(p) => param_of(v.view()) == Some(p@),
            None => param_of(v.view()) is None,
        },
{
    let name = v.get_str("name")?;
    let param_type = v.get_str("type")?;
    Some(TypedParameter { name, param_type })
}

fn decode_member(v: &JsonValue) -> (r: Option<StructMember>)
    ensures
        match r {
            Some(m) => member_of(v.view()) == Some(m@),
            None => member_of(v.view()) is None,
        },
{
    let name = v.get_str("name")?;
    let param_type = v.get_str("type")?;
    let offset = get_number(v, "offset")?;
    Some(StructMember { name, param_type, offset })
}

fn decode_params(xs: &Vec<JsonValue>) -> (r: Option<Vec<TypedParameter>>)
    ensures
        match r {
            Some(ps) => params_of(xs@.map_values(|x: JsonValue| x.view())) == Some(params_view(ps@)),
            None => params_of(xs@.map_values(|x: JsonValue| x.view())) is None,
        },
{
    let ghost js = xs@.map_values(|x: JsonValue| x.view());
    let mut out: Vec<TypedParameter> = Vec::new();
    let mut i: usize = 0;
    assert(js.take(0) =~= Seq::<Json>::empty());
    assert(params_view(out@) =~= Seq::<ParamView>::empty());
    while i < xs.len()
        invariant
            i <= xs@.len(),
            js == xs@.map_values(|x: JsonValue| x.view()),
            params_of(js.take(i as int)) == Some(params_view(out@)),
        decreases xs@.len() - i,
    {
        assert(js.take(i + 1).drop_last() =~= js.take(i as int));
        assert(js.take(i + 1).last() == xs@[i as int].view());
        match decode_param(&xs[i]) {
            Some(p) => {
                let ghost before = out@;
                out.push(p);
                assert(params_view(out@) =~= params_view(before).push(p@));
            },
            None => {
                proof {
                    lemma_params_fail(js, i as int);
                }
                return None;
            },
        }
        i = i + 1;
    }
    assert(js.take(i as int) =~= js);
    Some(out)
}

proof fn lemma_params_fail(js: Seq<Json>, i: int)
    requires
        0 <= i < js.len(),
        params_of(js.take(i + 1)) is None,
    ensures
        params_of(js) is None,
    decreases js.len(),
{
    if js.len() > i + 1 {
        assert(js.drop_last().take(i + 1) =~= js.take(i + 1));
        lemma_params_fail(js.drop_last(), i);
    } else {
        assert(js.take(i + 1) =~= js);
    }
}

proof fn lemma_members_fail(js: Seq<Json>, i: int)
    requires
        0 <= i < js.len(),
        members_of(js.take(i + 1)) is None,
    ensures
        members_of(js) is None,
    decreases js.len(),
{
    if js.len() > i + 1 {
        assert(js.drop_last().take(i + 1) =~= js.take(i + 1));
        lemma_members_fail(js.drop_last(), i);
    } else {
        assert(js.take(i + 1) =~= js);
    }
}

fn decode_members(xs: &Vec<JsonValue>) -> (r: Option<Vec<StructMember>>)
    ensures
        match r {
            Some(ms) => members_of(xs@.map_values(|x: JsonValue| x.view())) == Some(members_view(ms@)),
            None => members_of(xs@.map_values(|x: JsonValue| x.view())) is None,
        },
{
    let ghost js = xs@.map_values(|x: JsonValue| x.view());
    let mut out: Vec<StructMember> = Vec::new();
    let mut i: usize = 0;
    assert(js.take(0) =~= Seq::<Json>::empty());
    assert(members_view(out@) =~= Seq::<MemberView>::empty());
    while i < xs.len()
        invariant
            i <= xs@.len(),
            js == xs@.map_values(|x: JsonValue| x.view()),
            members_of(js.take(i as int)) == Some(members_view(out@)),
        decreases xs@.len() - i,
    {
        assert(js.take(i + 1).drop_last() =~= js.take(i as int));
        assert(js.take(i + 1).last() == xs@[i as int].view());
        match decode_member(&xs[i]) {
            Some(m) => {
                let ghost before = out@;
                out.push(m);
                assert(members_view(out@) =~= members_view(before).push(m@));
            },
            None => {
                proof {
                    lemma_members_fail(js, i as int);
                }
                return None;
            },
        }
        i = i + 1;
    }
    assert(js.take(i as int) =~= js);
    Some(out)
}

/// The items of an array value, viewed.
proof fn lemma_array_items(v: Json, xs: Seq<JsonValue>)
    requires
        v is Array,
        xs.len() == v->Array_0.len(),
        forall|i: int| 0 <= i < xs.len() ==> #[trigger] xs[i].view() == v->Array_0[i],
    ensures
        xs.map_values(|x: JsonValue| x.view()) == v->Array_0,
{
    assert(xs.map_values(|x: JsonValue| x.view()) =~= v->Array_0);
}

fn decode_param_list(v: &JsonValue, key: &str) -> (r: Option<Vec<TypedParameter>>)
    ensures
        match r {
            Some(ps) => param_list_of(v.view(), key@) == Some(params_view(ps@)),
            None => param_list_of(v.view(), key@) is None,
        },
{
    match v.get(key) {
        None => {
            let out: Vec<TypedParameter> = Vec::new();
            assert(params_view(out@) =~= Seq::<ParamView>::empty());
            Some(out)
        },
        Some(x) => {
            let xs = x.as_array()?;
            proof {
                lemma_array_items(x.view(), xs@);
            }
            decode_params(xs)
        },
    }
}

pub(crate) fn decode_opt_str(v: &JsonValue, key: &str) -> (r: Option<Option<String>>)
    ensures
        match r {
            Some(o) => opt_str_of(v.view(), key@) == Some(opt_string_view(o)),
            None => opt_str_of(v.view(), key@) is None,
        },
{
    match v.get(key) {
        None => Some(None),
        Some(JsonValue::Str(s)) => Some(Some(s.clone())),
        Some(_) => None,
    }
}

fn decode_function(v: &JsonValue) -> (r: Option<AbiEntry>)
    ensures
        match r {
            Some(e) => function_of(v.view()) == Some(e@),
            None => function_of(v.view()) is None,
        },
{
    let name = v.get_str("name")?;
    let inputs = decode_param_list(v, "inputs")?;
    let outputs = decode_param_list(v, "outputs")?;
    let state_mutability = decode_opt_str(v, "stateMutability")?;
    Some(AbiEntry::Function(FunctionAbiEntry { name, inputs, outputs, state_mutability }))
}

fn decode_event(v: &JsonValue) -> (r: Option<AbiEntry>)
    ensures
        match r {
            Some(e) => event_of(v.view()) == Some(e@),
            None => event_of(v.view()) is None,
        },
{
    let name = v.get_str("name")?;
    let keys = decode_param_list(v, "keys")?;
    let data = decode_param_list(v, "data")?;
    Some(AbiEntry::Event(EventAbiEntry { name, keys, data }))
}

fn decode_struct(v: &JsonValue) -> (r: Option<AbiEntry>)
    ensures
        match r {
            Some(e) => struct_of(v.view()) == Some(e@),
            None => struct_of(v.view()) is None,
        },
{
    let name = v.get_str("name")?;
    let size = get_number(v, "size")?;
    let m = v.get("members")?;
    let xs = m.as_array()?;
    proof {
        lemma_array_items(m.view(), xs@);
    }
    let members = decode_members(xs)?;
    Some(AbiEntry::Struct(StructAbiEntry { name, size, members }))
}

impl ContractClassAbiEntryWithType {
    /// Decodes one ABI entry: the `type` tag picks the payload's shape
    /// (`function`, `constructor`, `l1_handler`: a function; `event`; `struct`),
    /// which is then read from the same object.
    pub fn from_json(v: &JsonValue) -> (r: Result<ContractClassAbiEntryWithType, DecodeError>)
        ensures
            match abi_entry_of(v.view()) {
                Ok(e) => r matches Ok(x) && x@ == e,
                Err(err) => r == Err::<ContractClassAbiEntryWithType, DecodeError>(err),
            },
    {
        let t = match v.get_str("type") {
            Some(t) => t,
            None => {
                return Err(DecodeError::MissingRequiredField);
            },
        };
        let entry_type = match abi_type_from(&t) {
            Some(k) => k,
            None => {
                return Err(DecodeError::UnknownAbiEntryType);
            },
        };
        let entry = match entry_type {
            AbiEntryType::Event => decode_event(v),
            AbiEntryType::Struct => decode_struct(v),
            _ => decode_function(v),
        };
        match entry {
            Some(entry) => Ok(ContractClassAbiEntryWithType { entry, entry_type }),
            None => Err(DecodeError::MissingRequiredField),
        }
    }
}


/// The JSON tag of a kind.
pub open spec fn abi_type_tag(k: AbiEntryType) -> Seq<char> {
    match k {
        AbiEntryType::Function => "function"@,
        AbiEntryType::Constructor => "constructor"@,
        AbiEntryType::L1Handler => "l1_handler"@,
        AbiEntryType::Event => "event"@,
        AbiEntryType::Struct => "struct"@,
    }
}

pub open spec fn param_json(p: ParamView) -> Json {
    Json::Object(seq![("name"@, Json::Str(p.0)), ("type"@, Json::Str(p.1))])
}

pub open spec fn params_json(ps: Seq<ParamView>) -> Json {
    Json::Array(ps.map_values(|p: ParamView| param_json(p)))
}

pub open spec fn member_json(m: MemberView) -> Json {
    Json::Object(seq![("name"@, Json::Str(m.0)), ("type"@, Json::Str(m.1)), ("offset"@, Json::Number(m.2))])
}

/// The payload's own fields, in the order they are written.
pub open spec fn payload_fields(e: AbiEntryView) -> Seq<(Seq<char>, Json)> {
    match e {
        AbiEntryView::Function { name, inputs, outputs, state_mutability } => seq![
            ("name"@, Json::Str(name)),
            ("inputs"@, params_json(inputs)),
            ("outputs"@, params_json(outputs)),
        ].add(
            match state_mutability {
                Some(m) => seq![("stateMutability"@, Json::Str(m))],
                None => Seq::empty(),
            },
        ),
        AbiEntryView::Event { name, keys, data } => seq![
            ("name"@, Json::Str(name)),
            ("keys"@, params_json(keys)),
            ("data"@, params_json(data)),
        ],
        AbiEntryView::Struct { name, size, members } => seq![
            ("name"@, Json::Str(name)),
            ("size"@, Json::Number(size)),
            ("members"@, Json::Array(members.map_values(|m: MemberView| member_json(m)))),
        ],
    }
}

/// An entry written as one object: the payload's fields, then `type`.
pub open spec fn abi_entry_json(e: (AbiEntryView, AbiEntryType)) -> Json {
    Json::Object(payload_fields(e.0).push(("type"@, Json::Str(abi_type_tag(e.1)))))
}

fn string_of(s: &str) -> (r: String)
    ensures
        r@ == s@,
{
    String::from_str(s)
}

fn param_to_json(p: &TypedParameter) -> (r: JsonValue)
    ensures
        r.view() == param_json(p@),
{
    let fs = vec![
        (string_of("name"), JsonValue::Str(p.name.clone())),
        (string_of("type"), JsonValue::Str(p.param_type.clone())),
    ];
    let r = JsonValue::object(fs);
    assert(fields_view(fs@) =~= seq![("name"@, Json::Str(p.name@)), ("type"@, Json::Str(p.param_type@))]);
    r
}

fn member_to_json(m: &StructMember) -> (r: JsonValue)
    ensures
        r.view() == member_json(m@),
{
    let fs = vec![
        (string_of("name"), JsonValue::Str(m.name.clone())),
        (string_of("type"), JsonValue::Str(m.param_type.clone())),
        (string_of("offset"), JsonValue::Number(m.offset.clone())),
    ];
    let r = JsonValue::object(fs);
    assert(fields_view(fs@) =~= seq![
        ("name"@, Json::Str(m.name@)),
        ("type"@, Json::Str(m.param_type@)),
        ("offset"@, Json::Number(m.offset@)),
    ]);
    r
}

fn params_to_json(ps: &Vec<TypedParameter>) -> (r: JsonValue)
    ensures
        r.view() == params_json(params_view(ps@)),
{
    let mut out: Vec<JsonValue> = Vec::new();
    let mut i: usize = 0;
    while i < ps.len()
        invariant
            i <= ps@.len(),
            out@.len() == i,
            forall|k: int| 0 <= k < i ==> #[trigger] out@[k].view() == param_json(ps@[k]@),
        decreases ps@.len() - i,
    {
        out.push(param_to_json(&ps[i]));
        i = i + 1;
    }
    let r = JsonValue::array(out);
    assert(views_of(out@) =~= params_view(ps@).map_values(|p: ParamView| param_json(p)));
    r
}

fn members_to_json(ms: &Vec<StructMember>) -> (r: JsonValue)
    ensures
        r.view() == Json::Array(members_view(ms@).map_values(|m: MemberView| member_json(m))),
{
    let mut out: Vec<JsonValue> = Vec::new();
    let mut i: usize = 0;
    while i < ms.len()
        invariant
            i <= ms@.len(),
            out@.len() == i,
            forall|k: int| 0 <= k < i ==> #[trigger] out@[k].view() == member_json(ms@[k]@),
        decreases ms@.len() - i,
    {
        out.push(member_to_json(&ms[i]));
        i = i + 1;
    }
    let r = JsonValue::array(out);
    assert(views_of(out@) =~= members_view(ms@).map_values(|m: MemberView| member_json(m)));
    r
}

fn type_tag(k: AbiEntryType) -> (r: String)
    ensures
        r@ == abi_type_tag(k),
{
    match k {
        AbiEntryType::Function => string_of("function"),
        AbiEntryType::Constructor => string_of("constructor"),
        AbiEntryType::L1Handler => string_of("l1_handler"),
        AbiEntryType::Event => string_of("event"),
        AbiEntryType::Struct => string_of("struct"),
    }
}

impl ContractClassAbiEntryWithType {
    /// Writes the entry as one object: the payload's fields, then `type`.
    pub fn to_json(&self) -> (r: JsonValue)
        ensures
            r.view() == abi_entry_json(self@),
    {
        let mut fs: Vec<(String, JsonValue)> = Vec::new();
        match &self.entry {
            AbiEntry::Function(f) => {
                fs.push((string_of("name"), JsonValue::Str(f.name.clone())));
                fs.push((string_of("inputs"), params_to_json(&f.inputs)));
                fs.push((string_of("outputs"), params_to_json(&f.outputs)));
                match &f.state_mutability {
                    Some(m) => {
                        fs.push((string_of("stateMutability"), JsonValue::Str(m.clone())));
                    },
                    None => {},
                }
            },
            AbiEntry::Event(e) => {
                fs.push((string_of("name"), JsonValue::Str(e.name.clone())));
                fs.push((string_of("keys"), params_to_json(&e.keys)));
                fs.push((string_of("data"), params_to_json(&e.data)));
            },
            AbiEntry::Struct(st) => {
                fs.push((string_of("name"), JsonValue::Str(st.name.clone())));
                fs.push((string_of("size"), JsonValue::Number(st.size.clone())));
                fs.push((string_of("members"), members_to_json(&st.members)));
            },
        }
        assert(fields_view(fs@) =~= payload_fields(self.entry@));
        fs.push((string_of("type"), JsonValue::Str(type_tag(self.entry_type))));
        assert(fields_view(fs@) =~= payload_fields(self.entry@).push(("type"@, Json::Str(abi_type_tag(self.entry_type)))));
        JsonValue::object(fs)
    }
}

} // verus!
