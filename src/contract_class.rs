//! The two contract-class schemas, decoded from JSON by a fixed trial order.
use vstd::prelude::*;
use crate::abi::{abi_entry_json, abi_entry_of, decode_opt_str, json_get_number, opt_str_of, AbiEntryType, AbiEntryView, ContractClassAbiEntryWithType};
use crate::codec::{compressed, encode_compressed, json_parsed, parse_json};
use vstd::string::StringSliceAdditionalSpecFns;
use crate::entry_points::{
    group_sierra_entry_points, sierra_sources_decoded, SierraEntryPointsSource,
    group_of, groups_view, groups_wf, grouped, lemma_grouped_wf, push_group, EntryPointGroups, EntryPointType, LegacyEntryPoint,
    SierraEntryPoint,
};
use crate::error::DecodeError;
use crate::felt::{felt_of_text, felt_text, lower_hex_char, lower_hex_str, FieldElement};
use crate::json::{canonical, is_canonical, lemma_canonical_is_canonical, fields_view, json_get, json_get_str, opt_string_view, views_of, Json, JsonValue};

verus! {

/// Decodes each item with `f`, in order; the first failure decides the error.
pub open spec fn decode_list<T>(xs: Seq<Json>, f: spec_fn(Json) -> Result<T, DecodeError>) -> Result<Seq<T>, DecodeError>
    decreases xs.len(),
{
    if xs.len() == 0 {
        Ok(Seq::empty())
    } else {
        match decode_list(xs.drop_last(), f) {
            Err(e) => Err(e),
            Ok(p) => match f(xs.last()) {
                Ok(x) => Ok(p.push(x)),
                Err(e) => Err(e),
            },
        }
    }
}

proof fn lemma_decode_list_step<T>(xs: Seq<Json>, f: spec_fn(Json) -> Result<T, DecodeError>, i: int)
    requires
        0 <= i < xs.len(),
    ensures
        decode_list(xs.take(i + 1), f) == (match decode_list(xs.take(i), f) {
            Err(e) => Err(e),
            Ok(p) => match f(xs[i]) {
                Ok(x) => Ok(p.push(x)),
                Err(e) => Err(e),
            },
        }),
{
    assert(xs.take(i + 1).drop_last() =~= xs.take(i));
    assert(xs.take(i + 1).last() == xs[i]);
}

proof fn lemma_decode_list_fail<T>(xs: Seq<Json>, f: spec_fn(Json) -> Result<T, DecodeError>, i: int)
    requires
        0 <= i < xs.len(),
        decode_list(xs.take(i + 1), f) is Err,
    ensures
        decode_list(xs, f) == decode_list(xs.take(i + 1), f),
    decreases xs.len(),
{
    if xs.len() > i + 1 {
        assert(xs.drop_last().take(i + 1) =~= xs.take(i + 1));
        lemma_decode_list_fail(xs.drop_last(), f, i);
    } else {
        assert(xs.take(i + 1) =~= xs);
    }
}

pub open spec fn is_decimal(s: Seq<char>) -> bool {
    s.len() > 0 && forall|i: int| 0 <= i < s.len() ==> '0' <= #[trigger] s[i] <= '9'
}

pub open spec fn decimal_val(s: Seq<char>) -> nat
    decreases s.len(),
{
    if s.len() == 0 {
        0
    } else {
        decimal_val(s.drop_last()) * 10 + (s.last() as u32 - '0' as u32) as nat
    }
}

/// A JSON number's text read as a `u64`: decimal digits only, within range.
pub open spec fn u64_of_text(s: Seq<char>) -> Option<u64> {
    if is_decimal(s) && decimal_val(s) <= u64::MAX {
        Some(decimal_val(s) as u64)
    } else {
        None
    }
}

proof fn lemma_decimal_grows(s: Seq<char>, k: int)
    requires
        0 <= k <= s.len(),
        forall|i: int| 0 <= i < s.len() ==> '0' <= #[trigger] s[i] <= '9',
    ensures
        decimal_val(s) >= decimal_val(s.take(k)),
    decreases s.len(),
{
    if k < s.len() {
        let p = s.drop_last();
        assert forall|i: int| 0 <= i < p.len() implies '0' <= #[trigger] p[i] <= '9' by {
            assert(p[i] == s[i]);
        }
        lemma_decimal_grows(p, k);
        assert(p.take(k) =~= s.take(k));
    } else {
        assert(s.take(k) =~= s);
    }
}

fn parse_u64(s: &String) -> (r: Option<u64>)
    ensures
        r == u64_of_text(s@),
{
    let t = s.as_str();
    let n = t.unicode_len();
    if n == 0 {
        return None;
    }
    let mut acc: u64 = 0;
    let mut i: usize = 0;
    assert(s@.take(0) =~= Seq::<char>::empty());
    while i < n
        invariant
            n == s@.len(),
            t@ == s@,
            i <= n,
            forall|j: int| 0 <= j < i ==> '0' <= #[trigger] s@[j] <= '9',
            acc as nat == decimal_val(s@.take(i as int)),
        decreases n - i,
    {
        let c = t.get_char(i);
        if c < '0' || c > '9' {
            return None;
        }
        let d = (c as u32 - '0' as u32) as u64;
        assert(s@.take(i + 1).drop_last() =~= s@.take(i as int));
        assert(decimal_val(s@.take(i + 1)) == decimal_val(s@.take(i as int)) * 10 + d as nat);
        if acc > (u64::MAX - d) / 10 {
            proof {
                assert(acc as nat * 10 + d as nat > u64::MAX) by (nonlinear_arith)
                    requires
                        acc > (u64::MAX - d) / 10,
                        d <= 9,
                ;
                if is_decimal(s@) {
                    lemma_decimal_grows(s@, i + 1);
                }
            }
            return None;
        }
        assert(acc as nat * 10 + d as nat <= u64::MAX) by (nonlinear_arith)
            requires
                acc <= (u64::MAX - d) / 10,
                d <= 9,
        ;
        acc = acc * 10 + d;
        i = i + 1;
    }
    assert(s@.take(n as int) =~= s@);
    Some(acc)
}

/// A legacy entry point: hex selector and hex offset.
pub open spec fn legacy_entry_point_of(v: Json) -> Result<(Seq<u8>, Seq<u8>), DecodeError> {
    match (json_get_str(v, "selector"@), json_get_str(v, "offset"@)) {
        (Some(s), Some(o)) => match (felt_of_text(s), felt_of_text(o)) {
            (Some(a), Some(b)) => Ok((a, b)),
            _ => Err(DecodeError::MalformedFieldElement),
        },
        _ => Err(DecodeError::MissingRequiredField),
    }
}

/// A new-IR entry point: hex selector and a function index.
pub open spec fn sierra_entry_point_of(v: Json) -> Result<(Seq<u8>, u64), DecodeError> {
    match (json_get_str(v, "selector"@), json_get_number(v, "function_idx"@)) {
        (Some(s), Some(n)) => match (felt_of_text(s), u64_of_text(n)) {
            (Some(a), Some(k)) => Ok((a, k)),
            (None, _) => Err(DecodeError::MalformedFieldElement),
            _ => Err(DecodeError::MissingRequiredField),
        },
        _ => Err(DecodeError::MissingRequiredField),
    }
}

/// A program word: a hex string.
pub open spec fn felt_item_of(v: Json) -> Result<Seq<u8>, DecodeError> {
    match v {
        Json::Str(s) => match felt_of_text(s) {
            Some(d) => Ok(d),
            None => Err(DecodeError::MalformedFieldElement),
        },
        _ => Err(DecodeError::MissingRequiredField),
    }
}

pub open spec fn legacy_entry_points_of(xs: Seq<Json>) -> Result<Seq<(Seq<u8>, Seq<u8>)>, DecodeError> {
    decode_list(xs, |j: Json| legacy_entry_point_of(j))
}

pub open spec fn sierra_entry_points_of(xs: Seq<Json>) -> Result<Seq<(Seq<u8>, u64)>, DecodeError> {
    decode_list(xs, |j: Json| sierra_entry_point_of(j))
}

pub open spec fn felts_of(xs: Seq<Json>) -> Result<Seq<Seq<u8>>, DecodeError> {
    decode_list(xs, |j: Json| felt_item_of(j))
}

pub open spec fn abi_entries_of(xs: Seq<Json>) -> Result<Seq<(AbiEntryView, AbiEntryType)>, DecodeError> {
    decode_list(xs, |j: Json| abi_entry_of(j))
}

/// One category's list under `key`: absent is empty, an array is decoded item
/// by item, anything else is missing.
pub open spec fn category_of<T>(v: Json, key: Seq<char>, f: spec_fn(Seq<Json>) -> Result<Seq<T>, DecodeError>) -> Result<Seq<T>, DecodeError> {
    match json_get(v, key) {
        None => Ok(Seq::empty()),
        Some(Json::Array(xs)) => f(xs),
        Some(_) => Err(DecodeError::MissingRequiredField),
    }
}

pub open spec fn is_entry_point_key(k: Seq<char>) -> bool {
    k == "CONSTRUCTOR"@ || k == "EXTERNAL"@ || k == "L1_HANDLER"@
}

/// Every key of the object names an entry-point type.
pub open spec fn keys_known(fs: Seq<(Seq<char>, Json)>) -> bool {
    forall|i: int| 0 <= i < fs.len() ==> is_entry_point_key(#[trigger] fs[i].0)
}

/// The `entry_points_by_type` object: the wire keys `CONSTRUCTOR`, `EXTERNAL`
/// and `L1_HANDLER`, grouped in that order; any other key is refused.
pub open spec fn groups_of<T>(v: Json, f: spec_fn(Seq<Json>) -> Result<Seq<T>, DecodeError>) -> Result<Seq<(EntryPointType, Seq<T>)>, DecodeError> {
    match json_get(v, "entry_points_by_type"@) {
        Some(o) => if o is Object && keys_known(o->Object_0) {
            match category_of(o, "CONSTRUCTOR"@, f) {
                Err(e) => Err(e),
                Ok(c) => match category_of(o, "EXTERNAL"@, f) {
                    Err(e) => Err(e),
                    Ok(x) => match category_of(o, "L1_HANDLER"@, f) {
                        Err(e) => Err(e),
                        Ok(l) => Ok(grouped(c, x, l)),
                    },
                },
            }
        } else {
            Err(DecodeError::MissingRequiredField)
        },
        None => Err(DecodeError::MissingRequiredField),
    }
}

/// Decoded groups are well formed.
pub proof fn lemma_groups_of_wf<T>(v: Json, f: spec_fn(Seq<Json>) -> Result<Seq<T>, DecodeError>)
    ensures
        groups_of(v, f) matches Ok(g) ==> groups_wf(g),
{
    if let Some(o) = json_get(v, "entry_points_by_type"@) {
        if let (Ok(c), Ok(x), Ok(l)) = (
            category_of(o, "CONSTRUCTOR"@, f),
            category_of(o, "EXTERNAL"@, f),
            category_of(o, "L1_HANDLER"@, f),
        ) {
            lemma_grouped_wf(c, x, l);
        }
    }
}

/// The mathematical form of a legacy class.
pub struct LegacyView {
    pub abi: Seq<(AbiEntryView, AbiEntryType)>,
    pub program: Json,
    pub entry_points_by_type: Seq<(EntryPointType, Seq<(Seq<u8>, Seq<u8>)>)>,
}

/// The mathematical form of a new-IR class.
pub struct SierraView {
    pub sierra_program: Seq<Seq<u8>>,
    pub contract_class_version: Seq<char>,
    pub entry_points_by_type: Seq<(EntryPointType, Seq<(Seq<u8>, u64)>)>,
    pub abi: Option<Seq<char>>,
}

pub enum ContractClassView {
    Cairo0(LegacyView),
    Sierra(SierraView),
}

/// Decoding of the legacy schema; the program's keys are sorted at every depth.
pub open spec fn legacy_of(v: Json) -> Result<LegacyView, DecodeError> {
    match json_get(v, "abi"@) {
        Some(Json::Array(xs)) => match abi_entries_of(xs) {
            Err(e) => Err(e),
            Ok(abi) => match json_get(v, "program"@) {
                None => Err(DecodeError::MissingRequiredField),
                Some(p) => match groups_of(v, |xs: Seq<Json>| legacy_entry_points_of(xs)) {
                    Err(e) => Err(e),
                    Ok(g) => Ok(LegacyView { abi, program: canonical(p), entry_points_by_type: g }),
                },
            },
        },
        _ => Err(DecodeError::MissingRequiredField),
    }
}

/// Decoding of the new-IR schema; an absent `abi` is `None`.
pub open spec fn sierra_of(v: Json) -> Result<SierraView, DecodeError> {
    match json_get(v, "sierra_program"@) {
        Some(Json::Array(xs)) => match felts_of(xs) {
            Err(e) => Err(e),
            Ok(prog) => match json_get_str(v, "contract_class_version"@) {
                None => Err(DecodeError::MissingRequiredField),
                Some(ver) => match groups_of(v, |xs: Seq<Json>| sierra_entry_points_of(xs)) {
                    Err(e) => Err(e),
                    Ok(g) => match opt_str_of(v, "abi"@) {
                        None => Err(DecodeError::MissingRequiredField),
                        Some(a) => Ok(
                            SierraView {
                                sierra_program: prog,
                                contract_class_version: ver,
                                entry_points_by_type: g,
                                abi: a,
                            },
                        ),
                    },
                },
            },
        },
        _ => Err(DecodeError::MissingRequiredField),
    }
}

/// Decoding of either schema: legacy first, then new-IR; a payload that fits
/// neither is missing a required field.
pub open spec fn contract_class_of(v: Json) -> Result<ContractClassView, DecodeError> {
    match legacy_of(v) {
        Ok(c) => Ok(ContractClassView::Cairo0(c)),
        Err(_) => match sierra_of(v) {
            Ok(s) => Ok(ContractClassView::Sierra(s)),
            Err(_) => Err(DecodeError::MissingRequiredField),
        },
    }
}



/// A legacy contract class.
#[derive(Debug)]
pub struct DeprecatedContractClass {
    pub abi: Vec<ContractClassAbiEntryWithType>,
    /// The program, with the keys of every object sorted.
    pub program: JsonValue,
    pub entry_points_by_type: EntryPointGroups<LegacyEntryPoint>,
}

/// A new-IR contract class.
#[derive(Clone, Debug, PartialEq, Eq)]
pub struct SierraContractClass {
    pub sierra_program: Vec<FieldElement>,
    pub contract_class_version: String,
    pub entry_points_by_type: EntryPointGroups<SierraEntryPoint>,
    /// The ABI in compressed form, when there is one.
    pub abi: Option<String>,
}

/// A contract class of either schema.
#[derive(Debug)]
pub enum ContractClass {
    Cairo0(DeprecatedContractClass),
    Sierra(SierraContractClass),
}

impl View for DeprecatedContractClass {
    type V = LegacyView;

    open spec fn view(&self) -> LegacyView {
        LegacyView {
            abi: self.abi@.map_values(|e: ContractClassAbiEntryWithType| e@),
            program: self.program.view(),
            entry_points_by_type: groups_view(self.entry_points_by_type@),
        }
    }
}

impl View for SierraContractClass {
    type V = SierraView;

    open spec fn view(&self) -> SierraView {
        SierraView {
            sierra_program: self.sierra_program@.map_values(|f: FieldElement| f@),
            contract_class_version: self.contract_class_version@,
            entry_points_by_type: groups_view(self.entry_points_by_type@),
            abi: opt_string_view(self.abi),
        }
    }
}

impl View for ContractClass {
    type V = ContractClassView;

    open spec fn view(&self) -> ContractClassView {
        match self {
            ContractClass::Cairo0(c) => ContractClassView::Cairo0(c@),
            ContractClass::Sierra(c) => ContractClassView::Sierra(c@),
        }
    }
}

fn decode_legacy_entry_point(v: &JsonValue) -> (r: Result<LegacyEntryPoint, DecodeError>)
    ensures
        match legacy_entry_point_of(v.view()) {
            Ok(x) => r matches Ok(y) && y@ == x,
            Err(e) => r == Err::<LegacyEntryPoint, DecodeError>(e),
        },
{
    let s = match v.get_str("selector") {
        Some(s) => s,
        None => {
            return Err(DecodeError::MissingRequiredField);
        },
    };
    let o = match v.get_str("offset") {
        Some(o) => o,
        None => {
            return Err(DecodeError::MissingRequiredField);
        },
    };
    match (FieldElement::decode(s.as_str()), FieldElement::decode(o.as_str())) {
        (Ok(selector), Ok(offset)) => Ok(LegacyEntryPoint { selector, offset }),
        _ => Err(DecodeError::MalformedFieldElement),
    }
}

fn decode_sierra_entry_point(v: &JsonValue) -> (r: Result<SierraEntryPoint, DecodeError>)
    ensures
        match sierra_entry_point_of(v.view()) {
            Ok(x) => r matches Ok(y) && y@ == x,
            Err(e) => r == Err::<SierraEntryPoint, DecodeError>(e),
        },
{
    let s = match v.get_str("selector") {
        Some(s) => s,
        None => {
            return Err(DecodeError::MissingRequiredField);
        },
    };
    let n = match v.get("function_idx") {
        Some(JsonValue::Number(n)) => n,
        _ => {
            return Err(DecodeError::MissingRequiredField);
        },
    };
    let selector = match FieldElement::decode(s.as_str()) {
        Ok(f) => f,
        Err(_) => {
            return Err(DecodeError::MalformedFieldElement);
        },
    };
    match parse_u64(n) {
        Some(function_idx) => Ok(SierraEntryPoint { selector, function_idx }),
        None => Err(DecodeError::MissingRequiredField),
    }
}

fn decode_felt_item(v: &JsonValue) -> (r: Result<FieldElement, DecodeError>)
    ensures
        match felt_item_of(v.view()) {
            Ok(x) => r matches Ok(y) && y@ == x,
            Err(e) => r == Err::<FieldElement, DecodeError>(e),
        },
{
    match v {
        JsonValue::Str(s) => match FieldElement::decode(s.as_str()) {
            Ok(f) => Ok(f),
            Err(_) => Err(DecodeError::MalformedFieldElement),
        },
        _ => Err(DecodeError::MissingRequiredField),
    }
}

fn decode_legacy_entry_points(xs: &Vec<JsonValue>) -> (r: Result<Vec<LegacyEntryPoint>, DecodeError>)
    ensures
        match legacy_entry_points_of(views_of(xs@)) {
            Ok(d) => r matches Ok(v) && v@.map_values(|e: LegacyEntryPoint| e@) == d,
            Err(e) => r == Err::<Vec<LegacyEntryPoint>, DecodeError>(e),
        },
{
    let ghost js = views_of(xs@);
    let ghost f = |j: Json| legacy_entry_point_of(j);
    let mut out: Vec<LegacyEntryPoint> = Vec::new();
    let mut i: usize = 0;
    assert(js.take(0) =~= Seq::<Json>::empty());
    assert(out@.map_values(|e: LegacyEntryPoint| e@) =~= Seq::empty());
    while i < xs.len()
        invariant
            i <= xs@.len(),
            js == views_of(xs@),
            f == (|j: Json| legacy_entry_point_of(j)),
            decode_list(js.take(i as int), f) == Ok::<Seq<(Seq<u8>, Seq<u8>)>, DecodeError>(out@.map_values(|e: LegacyEntryPoint| e@)),
        decreases xs@.len() - i,
    {
        proof {
            lemma_decode_list_step(js, f, i as int);
        }
        assert(js[i as int] == xs@[i as int].view());
        match decode_legacy_entry_point(&xs[i]) {
            Ok(x) => {
                let ghost before = out@;
                out.push(x);
                assert(out@.map_values(|e: LegacyEntryPoint| e@) =~= before.map_values(|e: LegacyEntryPoint| e@).push(x@));
            },
            Err(e) => {
                proof {
                    lemma_decode_list_fail(js, f, i as int);
                }
                return Err(e);
            },
        }
        i = i + 1;
    }
    assert(js.take(i as int) =~= js);
    Ok(out)
}

fn decode_sierra_entry_points(xs: &Vec<JsonValue>) -> (r: Result<Vec<SierraEntryPoint>, DecodeError>)
    ensures
        match sierra_entry_points_of(views_of(xs@)) {
            Ok(d) => r matches Ok(v) && v@.map_values(|e: SierraEntryPoint| e@) == d,
            Err(e) => r == Err::<Vec<SierraEntryPoint>, DecodeError>(e),
        },
{
    let ghost js = views_of(xs@);
    let ghost f = |j: Json| sierra_entry_point_of(j);
    let mut out: Vec<SierraEntryPoint> = Vec::new();
    let mut i: usize = 0;
    assert(js.take(0) =~= Seq::<Json>::empty());
    assert(out@.map_values(|e: SierraEntryPoint| e@) =~= Seq::empty());
    while i < xs.len()
        invariant
            i <= xs@.len(),
            js == views_of(xs@),
            f == (|j: Json| sierra_entry_point_of(j)),
            decode_list(js.take(i as int), f) == Ok::<Seq<(Seq<u8>, u64)>, DecodeError>(out@.map_values(|e: SierraEntryPoint| e@)),
        decreases xs@.len() - i,
    {
        proof {
            lemma_decode_list_step(js, f, i as int);
        }
        assert(js[i as int] == xs@[i as int].view());
        match decode_sierra_entry_point(&xs[i]) {
            Ok(x) => {
                let ghost before = out@;
                out.push(x);
                assert(out@.map_values(|e: SierraEntryPoint| e@) =~= before.map_values(|e: SierraEntryPoint| e@).push(x@));
            },
            Err(e) => {
                proof {
                    lemma_decode_list_fail(js, f, i as int);
                }
                return Err(e);
            },
        }
        i = i + 1;
    }
    assert(js.take(i as int) =~= js);
    Ok(out)
}

fn decode_felts(xs: &Vec<JsonValue>) -> (r: Result<Vec<FieldElement>, DecodeError>)
    ensures
        match felts_of(views_of(xs@)) {
            Ok(d) => r matches Ok(v) && v@.map_values(|e: FieldElement| e@) == d,
            Err(e) => r == Err::<Vec<FieldElement>, DecodeError>(e),
        },
{
    let ghost js = views_of(xs@);
    let ghost f = |j: Json| felt_item_of(j);
    let mut out: Vec<FieldElement> = Vec::new();
    let mut i: usize = 0;
    assert(js.take(0) =~= Seq::<Json>::empty());
    assert(out@.map_values(|e: FieldElement| e@) =~= Seq::empty());
    while i < xs.len()
        invariant
            i <= xs@.len(),
            js == views_of(xs@),
            f == (|j: Json| felt_item_of(j)),
            decode_list(js.take(i as int), f) == Ok::<Seq<Seq<u8>>, DecodeError>(out@.map_values(|e: FieldElement| e@)),
        decreases xs@.len() - i,
    {
        proof {
            lemma_decode_list_step(js, f, i as int);
        }
        assert(js[i as int] == xs@[i as int].view());
        match decode_felt_item(&xs[i]) {
            Ok(x) => {
                let ghost before = out@;
                out.push(x);
                assert(out@.map_values(|e: FieldElement| e@) =~= before.map_values(|e: FieldElement| e@).push(x@));
            },
            Err(e) => {
                proof {
                    lemma_decode_list_fail(js, f, i as int);
                }
                return Err(e);
            },
        }
        i = i + 1;
    }
    assert(js.take(i as int) =~= js);
    Ok(out)
}

fn decode_abi_entries(xs: &Vec<JsonValue>) -> (r: Result<Vec<ContractClassAbiEntryWithType>, DecodeError>)
    ensures
        match abi_entries_of(views_of(xs@)) {
            Ok(d) => r matches Ok(v) && v@.map_values(|e: ContractClassAbiEntryWithType| e@) == d,
            Err(e) => r == Err::<Vec<ContractClassAbiEntryWithType>, DecodeError>(e),
        },
{
    let ghost js = views_of(xs@);
    let ghost f = |j: Json| abi_entry_of(j);
    let mut out: Vec<ContractClassAbiEntryWithType> = Vec::new();
    let mut i: usize = 0;
    assert(js.take(0) =~= Seq::<Json>::empty());
    assert(out@.map_values(|e: ContractClassAbiEntryWithType| e@) =~= Seq::empty());
    while i < xs.len()
        invariant
            i <= xs@.len(),
            js == views_of(xs@),
            f == (|j: Json| abi_entry_of(j)),
            decode_list(js.take(i as int), f) == Ok::<Seq<(AbiEntryView, AbiEntryType)>, DecodeError>(out@.map_values(|e: ContractClassAbiEntryWithType| e@)),
        decreases xs@.len() - i,
    {
        proof {
            lemma_decode_list_step(js, f, i as int);
        }
        assert(js[i as int] == xs@[i as int].view());
        match ContractClassAbiEntryWithType::from_json(&xs[i]) {
            Ok(x) => {
                let ghost before = out@;
                out.push(x);
                assert(out@.map_values(|e: ContractClassAbiEntryWithType| e@) =~= before.map_values(|e: ContractClassAbiEntryWithType| e@).push(x@));
            },
            Err(e) => {
                proof {
                    lemma_decode_list_fail(js, f, i as int);
                }
                return Err(e);
            },
        }
        i = i + 1;
    }
    assert(js.take(i as int) =~= js);
    Ok(out)
}


proof fn lemma_views_of_array(x: Json, xs: Seq<JsonValue>)
    requires
        x is Array,
        xs.len() == x->Array_0.len(),
        forall|i: int| 0 <= i < xs.len() ==> #[trigger] xs[i].view() == x->Array_0[i],
    ensures
        views_of(xs) == x->Array_0,
{
    assert(views_of(xs) =~= x->Array_0);
}

fn entry_point_keys_known(o: &JsonValue) -> (r: bool)
    requires
        o.view() is Object,
    ensures
        r == keys_known(o.view()->Object_0),
{
    match o {
        JsonValue::Object(fs) => {
            let ghost all = o.view()->Object_0;
            assert(all =~= fields_view(fs@));
            let c = String::from_str("CONSTRUCTOR");
            let e = String::from_str("EXTERNAL");
            let l = String::from_str("L1_HANDLER");
            let mut i: usize = 0;
            while i < fs.len()
                invariant
                    i <= fs@.len(),
                    all == fields_view(fs@),
                    all == o.view()->Object_0,
                    c@ == "CONSTRUCTOR"@,
                    e@ == "EXTERNAL"@,
                    l@ == "L1_HANDLER"@,
                    forall|k: int| 0 <= k < i ==> is_entry_point_key(#[trigger] all[k].0),
                decreases fs@.len() - i,
            {
                let k = &fs[i].0;
                if !(*k == c || *k == e || *k == l) {
                    assert(all[i as int].0 == k@);
                    assert(!is_entry_point_key(all[i as int].0));
                    return false;
                }
                i = i + 1;
            }
            true
        },
        _ => false,
    }
}

fn legacy_category(o: &JsonValue, key: &str) -> (r: Result<Vec<LegacyEntryPoint>, DecodeError>)
    ensures
        match category_of(o.view(), key@, |xs: Seq<Json>| legacy_entry_points_of(xs)) {
            Ok(d) => r matches Ok(v) && v@.map_values(|e: LegacyEntryPoint| e@) == d,
            Err(e) => r == Err::<Vec<LegacyEntryPoint>, DecodeError>(e),
        },
{
    match o.get(key) {
        None => {
            let out: Vec<LegacyEntryPoint> = Vec::new();
            assert(out@.map_values(|e: LegacyEntryPoint| e@) =~= Seq::empty());
            Ok(out)
        },
        Some(x) => match x.as_array() {
            Some(xs) => {
                proof {
                    lemma_views_of_array(x.view(), xs@);
                }
                decode_legacy_entry_points(xs)
            },
            None => Err(DecodeError::MissingRequiredField),
        },
    }
}

fn sierra_category(o: &JsonValue, key: &str) -> (r: Result<Vec<SierraEntryPoint>, DecodeError>)
    ensures
        match category_of(o.view(), key@, |xs: Seq<Json>| sierra_entry_points_of(xs)) {
            Ok(d) => r matches Ok(v) && v@.map_values(|e: SierraEntryPoint| e@) == d,
            Err(e) => r == Err::<Vec<SierraEntryPoint>, DecodeError>(e),
        },
{
    match o.get(key) {
        None => {
            let out: Vec<SierraEntryPoint> = Vec::new();
            assert(out@.map_values(|e: SierraEntryPoint| e@) =~= Seq::empty());
            Ok(out)
        },
        Some(x) => match x.as_array() {
            Some(xs) => {
                proof {
                    lemma_views_of_array(x.view(), xs@);
                }
                decode_sierra_entry_points(xs)
            },
            None => Err(DecodeError::MissingRequiredField),
        },
    }
}

/// Reads `entry_points_by_type` of a legacy class and groups it.
fn legacy_groups(v: &JsonValue) -> (r: Result<EntryPointGroups<LegacyEntryPoint>, DecodeError>)
    ensures
        match groups_of(v.view(), |xs: Seq<Json>| legacy_entry_points_of(xs)) {
            Ok(g) => r matches Ok(x) && groups_view(x@) == g,
            Err(e) => r == Err::<EntryPointGroups<LegacyEntryPoint>, DecodeError>(e),
        },
{
    let o = match v.get("entry_points_by_type") {
        Some(o) => o,
        None => {
            return Err(DecodeError::MissingRequiredField);
        },
    };
    if !matches!(o, JsonValue::Object(_)) || !entry_point_keys_known(o) {
        return Err(DecodeError::MissingRequiredField);
    }
    let c = match legacy_category(o, "CONSTRUCTOR") {
        Ok(c) => c,
        Err(e) => {
            return Err(e);
        },
    };
    let x = match legacy_category(o, "EXTERNAL") {
        Ok(x) => x,
        Err(e) => {
            return Err(e);
        },
    };
    let l = match legacy_category(o, "L1_HANDLER") {
        Ok(l) => l,
        Err(e) => {
            return Err(e);
        },
    };
    let mut groups: EntryPointGroups<LegacyEntryPoint> = Vec::new();
    assert(groups_view(groups@) =~= Seq::empty());
    push_group(&mut groups, EntryPointType::Constructor, c);
    push_group(&mut groups, EntryPointType::External, x);
    push_group(&mut groups, EntryPointType::L1Handler, l);
    Ok(groups)
}

/// Reads `entry_points_by_type` of a new-IR class and groups it.
fn sierra_groups(v: &JsonValue) -> (r: Result<EntryPointGroups<SierraEntryPoint>, DecodeError>)
    ensures
        match groups_of(v.view(), |xs: Seq<Json>| sierra_entry_points_of(xs)) {
            Ok(g) => r matches Ok(x) && groups_view(x@) == g,
            Err(e) => r == Err::<EntryPointGroups<SierraEntryPoint>, DecodeError>(e),
        },
{
    let o = match v.get("entry_points_by_type") {
        Some(o) => o,
        None => {
            return Err(DecodeError::MissingRequiredField);
        },
    };
    if !matches!(o, JsonValue::Object(_)) || !entry_point_keys_known(o) {
        return Err(DecodeError::MissingRequiredField);
    }
    let c = match sierra_category(o, "CONSTRUCTOR") {
        Ok(c) => c,
        Err(e) => {
            return Err(e);
        },
    };
    let x = match sierra_category(o, "EXTERNAL") {
        Ok(x) => x,
        Err(e) => {
            return Err(e);
        },
    };
    let l = match sierra_category(o, "L1_HANDLER") {
        Ok(l) => l,
        Err(e) => {
            return Err(e);
        },
    };
    let mut groups: EntryPointGroups<SierraEntryPoint> = Vec::new();
    assert(groups_view(groups@) =~= Seq::empty());
    push_group(&mut groups, EntryPointType::Constructor, c);
    push_group(&mut groups, EntryPointType::External, x);
    push_group(&mut groups, EntryPointType::L1Handler, l);
    Ok(groups)
}

impl DeprecatedContractClass {
    /// Decodes the legacy schema: `abi`, `program` (stored with its keys
    /// sorted at every depth) and `entry_points_by_type`.
    pub fn from_json(v: &JsonValue) -> (r: Result<DeprecatedContractClass, DecodeError>)
        ensures
            match legacy_of(v.view()) {
                Ok(c) => r matches Ok(x) && x@ == c,
                Err(e) => r is Err && r->Err_0 == e,
            },
            r matches Ok(x) ==> is_canonical(x@.program) && groups_wf(x@.entry_points_by_type),
    {
        proof {
            lemma_groups_of_wf(v.view(), |xs: Seq<Json>| legacy_entry_points_of(xs));
        }
        let abi_value = match v.get("abi") {
            Some(a) => a,
            None => {
                return Err(DecodeError::MissingRequiredField);
            },
        };
        let items = match abi_value.as_array() {
            Some(xs) => xs,
            None => {
                return Err(DecodeError::MissingRequiredField);
            },
        };
        proof {
            lemma_views_of_array(abi_value.view(), items@);
        }
        let abi = match decode_abi_entries(items) {
            Ok(a) => a,
            Err(e) => {
                return Err(e);
            },
        };
        let program_value = match v.get("program") {
            Some(p) => p,
            None => {
                return Err(DecodeError::MissingRequiredField);
            },
        };
        let entry_points_by_type = match legacy_groups(v) {
            Ok(g) => g,
            Err(e) => {
                return Err(e);
            },
        };
        let program = program_value.canonicalize();
        proof {
            lemma_canonical_is_canonical(program_value.view());
        }
        Ok(DeprecatedContractClass { abi, program, entry_points_by_type })
    }
}

impl SierraContractClass {
    /// Decodes the new-IR schema: `sierra_program`, `contract_class_version`,
    /// `entry_points_by_type` and the optional compressed `abi`.
    pub fn from_json(v: &JsonValue) -> (r: Result<SierraContractClass, DecodeError>)
        ensures
            match sierra_of(v.view()) {
                Ok(c) => r matches Ok(x) && x@ == c,
                Err(e) => r is Err && r->Err_0 == e,
            },
            r matches Ok(x) ==> groups_wf(x@.entry_points_by_type),
    {
        proof {
            lemma_groups_of_wf(v.view(), |xs: Seq<Json>| sierra_entry_points_of(xs));
        }
        let program_value = match v.get("sierra_program") {
            Some(a) => a,
            None => {
                return Err(DecodeError::MissingRequiredField);
            },
        };
        let items = match program_value.as_array() {
            Some(xs) => xs,
            None => {
                return Err(DecodeError::MissingRequiredField);
            },
        };
        proof {
            lemma_views_of_array(program_value.view(), items@);
        }
        let sierra_program = match decode_felts(items) {
            Ok(a) => a,
            Err(e) => {
                return Err(e);
            },
        };
        let contract_class_version = match v.get_str("contract_class_version") {
            Some(s) => s,
            None => {
                return Err(DecodeError::MissingRequiredField);
            },
        };
        let entry_points_by_type = match sierra_groups(v) {
            Ok(g) => g,
            Err(e) => {
                return Err(e);
            },
        };
        let abi = match decode_opt_str(v, "abi") {
            Some(a) => a,
            None => {
                return Err(DecodeError::MissingRequiredField);
            },
        };
        Ok(SierraContractClass { sierra_program, contract_class_version, entry_points_by_type, abi })
    }
}

impl ContractClass {
    /// Decodes either schema: the legacy one is tried first, the new-IR one
    /// only if that fails; if both fail, a required field is missing.
    pub fn from_json(v: &JsonValue) -> (r: Result<ContractClass, DecodeError>)
        ensures
            match contract_class_of(v.view()) {
                Ok(c) => r matches Ok(x) && x@ == c,
                Err(e) => r is Err && r->Err_0 == e,
            },
    {
        match DeprecatedContractClass::from_json(v) {
            Ok(c) => Ok(ContractClass::Cairo0(c)),
            Err(_) => match SierraContractClass::from_json(v) {
                Ok(s) => Ok(ContractClass::Sierra(s)),
                Err(_) => Err(DecodeError::MissingRequiredField),
            },
        }
    }
}

impl ContractClass {
    /// Reads JSON text and decodes it as either schema, legacy first.
    pub fn from_json_text(text: &str) -> (r: Result<ContractClass, DecodeError>)
        ensures
            match json_parsed(text.spec_bytes()) {
                None => r is Err && r->Err_0 == DecodeError::MalformedJson,
                Some(v) => match contract_class_of(v) {
                    Ok(c) => r matches Ok(x) && x@ == c,
                    Err(e) => r is Err && r->Err_0 == e,
                },
            },
    {
        match parse_json(text) {
            Ok(v) => ContractClass::from_json(&v),
            Err(e) => Err(e),
        }
    }
}

/// Schema selection is fixed: a payload that decodes as a legacy class is a
/// legacy class, and one that decodes only as a new-IR class is a new-IR class.
pub proof fn lemma_schema_selection(v: Json)
    ensures
        legacy_of(v) is Ok ==> contract_class_of(v) == Ok::<ContractClassView, DecodeError>(
            ContractClassView::Cairo0(legacy_of(v)->Ok_0),
        ),
        legacy_of(v) is Err && sierra_of(v) is Ok ==> contract_class_of(v) == Ok::<
            ContractClassView,
            DecodeError,
        >(ContractClassView::Sierra(sierra_of(v)->Ok_0)),
{
}


/// A new-IR class in compiled form: program words and selectors as hex text,
/// entry points in one list per category, the ABI as a JSON value.
#[derive(Debug)]
pub struct CompiledSierraClass {
    pub sierra_program: Vec<String>,
    pub contract_class_version: String,
    pub entry_points_by_type: SierraEntryPointsSource,
    pub abi: Option<JsonValue>,
}

/// A contract class in the form that execution and storage use.
#[derive(Debug)]
pub enum InternalContractClass {
    /// A legacy class as one JSON value.
    Cairo0(JsonValue),
    Cairo1(CompiledSierraClass),
}

/// The digits of each program word, if every word is a field element.
pub open spec fn felt_texts_of(ts: Seq<String>) -> Option<Seq<Seq<u8>>>
    decreases ts.len(),
{
    if ts.len() == 0 {
        Some(Seq::empty())
    } else {
        match (felt_texts_of(ts.drop_last()), felt_of_text(ts.last()@)) {
            (Some(p), Some(d)) => Some(p.push(d)),
            _ => None,
        }
    }
}

proof fn lemma_felt_texts_fail(ts: Seq<String>, i: int)
    requires
        0 <= i < ts.len(),
        felt_texts_of(ts.take(i + 1)) is None,
    ensures
        felt_texts_of(ts) is None,
    decreases ts.len(),
{
    if ts.len() > i + 1 {
        assert(ts.drop_last().take(i + 1) =~= ts.take(i + 1));
        lemma_felt_texts_fail(ts.drop_last(), i);
    } else {
        assert(ts.take(i + 1) =~= ts);
    }
}

fn decode_felt_texts(ts: &Vec<String>) -> (r: Result<Vec<FieldElement>, DecodeError>)
    ensures
        match felt_texts_of(ts@) {
            Some(d) => r matches Ok(v) && v@.map_values(|e: FieldElement| e@) == d,
            None => r == Err::<Vec<FieldElement>, DecodeError>(DecodeError::MalformedFieldElement),
        },
{
    let mut out: Vec<FieldElement> = Vec::new();
    let mut i: usize = 0;
    assert(ts@.take(0) =~= Seq::<String>::empty());
    assert(out@.map_values(|e: FieldElement| e@) =~= Seq::empty());
    while i < ts.len()
        invariant
            i <= ts@.len(),
            felt_texts_of(ts@.take(i as int)) == Some(out@.map_values(|e: FieldElement| e@)),
        decreases ts@.len() - i,
    {
        assert(ts@.take(i + 1).drop_last() =~= ts@.take(i as int));
        assert(ts@.take(i + 1).last() == ts@[i as int]);
        match FieldElement::decode(ts[i].as_str()) {
            Ok(f) => {
                let ghost before = out@;
                out.push(f);
                assert(out@.map_values(|e: FieldElement| e@) =~= before.map_values(|e: FieldElement| e@).push(f@));
            },
            Err(_) => {
                proof {
                    lemma_felt_texts_fail(ts@, i as int);
                }
                return Err(DecodeError::MalformedFieldElement);
            },
        }
        i = i + 1;
    }
    assert(ts@.take(i as int) =~= ts@);
    Ok(out)
}

/// The ABI of a compiled class cannot be written out: its JSON holds a number
/// whose text the JSON writer refuses.
pub open spec fn abi_unwritable(c: CompiledSierraClass) -> bool {
    match c.abi {
        Some(j) => compressed(j.view()) is None,
        None => false,
    }
}

/// What converting a compiled new-IR class gives, when every program word
/// and selector is a field element.
pub open spec fn compiled_sierra_of(c: CompiledSierraClass) -> Option<SierraView> {
    match (
        felt_texts_of(c.sierra_program@),
        sierra_sources_decoded(c.entry_points_by_type.constructor@),
        sierra_sources_decoded(c.entry_points_by_type.external@),
        sierra_sources_decoded(c.entry_points_by_type.l1_handler@),
    ) {
        (Some(p), Some(a), Some(b), Some(d)) => Some(
            SierraView {
                sierra_program: p,
                contract_class_version: c.contract_class_version@,
                entry_points_by_type: grouped(a, b, d),
                abi: match c.abi {
                    None => None,
                    Some(j) => compressed(j.view()),
                },
            },
        ),
        _ => None,
    }
}

impl SierraContractClass {
    /// Converts the compiled form: program words become field elements, the
    /// three entry-point lists are grouped by type (constructor, external, L1
    /// handler; empty ones left out), and the ABI, if any, is compressed.
    pub fn from_compiled(c: &CompiledSierraClass) -> (r: Result<SierraContractClass, DecodeError>)
        ensures
            match compiled_sierra_of(*c) {
                Some(v) => if abi_unwritable(*c) {
                    r == Err::<SierraContractClass, DecodeError>(DecodeError::AbiSerializationError)
                } else {
                    r matches Ok(x) && x@ == v
                },
                None => r == Err::<SierraContractClass, DecodeError>(DecodeError::MalformedFieldElement),
            },
            r matches Ok(x) ==> groups_wf(x@.entry_points_by_type),
    {
        let sierra_program = match decode_felt_texts(&c.sierra_program) {
            Ok(p) => p,
            Err(e) => {
                return Err(e);
            },
        };
        let entry_points_by_type = match group_sierra_entry_points(&c.entry_points_by_type) {
            Ok(g) => g,
            Err(e) => {
                return Err(e);
            },
        };
        let abi = match &c.abi {
            None => None,
            Some(j) => match encode_compressed(j) {
                Some(s) => Some(s),
                None => {
                    return Err(DecodeError::AbiSerializationError);
                },
            },
        };
        Ok(SierraContractClass {
            sierra_program,
            contract_class_version: c.contract_class_version.clone(),
            entry_points_by_type,
            abi,
        })
    }
}

impl ContractClass {
    /// Converts the internal form: a legacy class is decoded from its JSON, a
    /// compiled new-IR class is converted by `SierraContractClass::from_compiled`.
    pub fn from_internal(c: &InternalContractClass) -> (r: Result<ContractClass, DecodeError>)
        ensures
            match c {
                InternalContractClass::Cairo0(j) => match legacy_of(j.view()) {
                    Ok(v) => r matches Ok(x) && x@ == ContractClassView::Cairo0(v),
                    Err(e) => r is Err && r->Err_0 == e,
                },
                InternalContractClass::Cairo1(s) => match compiled_sierra_of(*s) {
                    Some(v) => if abi_unwritable(*s) {
                        r is Err && r->Err_0 == DecodeError::AbiSerializationError
                    } else {
                        r matches Ok(x) && x@ == ContractClassView::Sierra(v)
                    },
                    None => r is Err && r->Err_0 == DecodeError::MalformedFieldElement,
                },
            },
    {
        match c {
            InternalContractClass::Cairo0(j) => match DeprecatedContractClass::from_json(j) {
                Ok(x) => Ok(ContractClass::Cairo0(x)),
                Err(e) => Err(e),
            },
            InternalContractClass::Cairo1(s) => match SierraContractClass::from_compiled(s) {
                Ok(x) => Ok(ContractClass::Sierra(x)),
                Err(e) => Err(e),
            },
        }
    }
}


/// The wire key of an entry-point type.
pub open spec fn type_key(t: EntryPointType) -> Seq<char> {
    match t {
        EntryPointType::Constructor => "CONSTRUCTOR"@,
        EntryPointType::External => "EXTERNAL"@,
        EntryPointType::L1Handler => "L1_HANDLER"@,
    }
}

/// Both texts written for an entry point read back as the same field elements.
pub open spec fn entry_texts_decode(e: (Seq<u8>, Seq<u8>)) -> bool {
    felt_of_text(felt_text(e.0)) == Some(e.0) && felt_of_text(felt_text(e.1)) == Some(e.1)
}

/// Every selector and offset text written for the groups reads back as the
/// same field element.
pub open spec fn legacy_texts_decode(g: Seq<(EntryPointType, Seq<(Seq<u8>, Seq<u8>)>)>) -> bool {
    forall|k: int, i: int| 0 <= k < g.len() && 0 <= i < g[k].1.len() ==> entry_texts_decode(#[trigger] g[k].1[i])
}

pub open spec fn legacy_entry_point_json(e: (Seq<u8>, Seq<u8>)) -> Json {
    Json::Object(seq![("selector"@, Json::Str(felt_text(e.0))), ("offset"@, Json::Str(felt_text(e.1)))])
}

pub open spec fn legacy_group_json(g: (EntryPointType, Seq<(Seq<u8>, Seq<u8>)>)) -> (Seq<char>, Json) {
    (type_key(g.0), Json::Array(g.1.map_values(|e: (Seq<u8>, Seq<u8>)| legacy_entry_point_json(e))))
}

/// The internal form of a legacy class: one object holding `program`, `abi`
/// and `entry_points_by_type`, each written out as JSON.
pub open spec fn legacy_internal_json(c: LegacyView) -> Json {
    Json::Object(
        seq![
            ("program"@, c.program),
            ("abi"@, Json::Array(c.abi.map_values(|e: (AbiEntryView, AbiEntryType)| abi_entry_json(e)))),
            ("entry_points_by_type"@, Json::Object(c.entry_points_by_type.map_values(
                |g: (EntryPointType, Seq<(Seq<u8>, Seq<u8>)>)| legacy_group_json(g),
            ))),
        ],
    )
}

fn type_key_string(t: EntryPointType) -> (r: String)
    ensures
        r@ == type_key(t),
{
    match t {
        EntryPointType::Constructor => String::from_str("CONSTRUCTOR"),
        EntryPointType::External => String::from_str("EXTERNAL"),
        EntryPointType::L1Handler => String::from_str("L1_HANDLER"),
    }
}

fn legacy_entry_point_to_json(e: &LegacyEntryPoint) -> (r: JsonValue)
    ensures
        r.view() == legacy_entry_point_json(e@),
        entry_texts_decode(e@),
{
    let fs = vec![
        (String::from_str("selector"), JsonValue::Str(e.selector.encode())),
        (String::from_str("offset"), JsonValue::Str(e.offset.encode())),
    ];
    assert(fields_view(fs@) =~= seq![
        ("selector"@, Json::Str(felt_text(e.selector@))),
        ("offset"@, Json::Str(felt_text(e.offset@))),
    ]);
    JsonValue::object(fs)
}

fn legacy_groups_to_json(groups: &EntryPointGroups<LegacyEntryPoint>) -> (r: JsonValue)
    ensures
        r.view() == Json::Object(groups_view(groups@).map_values(
            |g: (EntryPointType, Seq<(Seq<u8>, Seq<u8>)>)| legacy_group_json(g),
        )),
        legacy_texts_decode(groups_view(groups@)),
{
    let mut fs: Vec<(String, JsonValue)> = Vec::new();
    let mut i: usize = 0;
    while i < groups.len()
        invariant
            i <= groups@.len(),
            fs@.len() == i,
            forall|k: int| 0 <= k < i ==> #[trigger] fields_view(fs@)[k] == legacy_group_json(
                groups_view(groups@)[k],
            ),
            forall|k: int, ii: int|
                0 <= k < i && 0 <= ii < groups_view(groups@)[k].1.len() ==> entry_texts_decode(
                    #[trigger] groups_view(groups@)[k].1[ii],
                ),
        decreases groups@.len() - i,
    {
        let es = &groups[i].1;
        let mut items: Vec<JsonValue> = Vec::new();
        let mut j: usize = 0;
        while j < es.len()
            invariant
                j <= es@.len(),
                items@.len() == j,
                forall|k: int| 0 <= k < j ==> #[trigger] items@[k].view() == legacy_entry_point_json(es@[k]@),
                forall|k: int| 0 <= k < j ==> entry_texts_decode(#[trigger] es@[k]@),
            decreases es@.len() - j,
        {
            items.push(legacy_entry_point_to_json(&es[j]));
            j = j + 1;
        }
        let ghost ev = es@.map_values(|e: LegacyEntryPoint| e@);
        assert forall|ii: int| 0 <= ii < groups_view(groups@)[i as int].1.len() implies entry_texts_decode(
            #[trigger] groups_view(groups@)[i as int].1[ii],
        ) by {
            assert(groups_view(groups@)[i as int].1[ii] == es@[ii]@);
        }
        assert(views_of(items@) =~= ev.map_values(|e: (Seq<u8>, Seq<u8>)| legacy_entry_point_json(e)));
        let ghost before = fs@;
        let ghost item_views = views_of(items@);
        fs.push((type_key_string(groups[i].0), JsonValue::array(items)));
        assert forall|k: int| 0 <= k < i + 1 implies #[trigger] fields_view(fs@)[k] == legacy_group_json(
            groups_view(groups@)[k],
        ) by {
            if k < i {
                assert(fs@[k] == before[k]);
                assert(fields_view(fs@)[k] == fields_view(before)[k]);
            } else {
                assert(groups_view(groups@)[k] == (groups@[k].0, ev));
                assert(fields_view(fs@)[k] == (type_key(groups@[k].0), Json::Array(item_views)));
            }
        }
        i = i + 1;
    }
    assert(fields_view(fs@) =~= groups_view(groups@).map_values(
        |g: (EntryPointType, Seq<(Seq<u8>, Seq<u8>)>)| legacy_group_json(g),
    ));
    JsonValue::object(fs)
}

impl DeprecatedContractClass {
    /// The internal form: one JSON object holding the program unchanged, the
    /// ABI and the grouped entry points written out as JSON.
    pub fn into_internal(self) -> (r: InternalContractClass)
        ensures
            r matches InternalContractClass::Cairo0(j) && j.view() == legacy_internal_json(self@),
            legacy_texts_decode(self@.entry_points_by_type),
    {
        InternalContractClass::Cairo0(self.into_json())
    }

    /// The wire form: `program`, `abi` and `entry_points_by_type` in one object.
    pub fn into_json(self) -> (r: JsonValue)
        ensures
            r.view() == legacy_internal_json(self@),
            legacy_texts_decode(self@.entry_points_by_type),
    {
        let ghost v = self@;
        let mut abi: Vec<JsonValue> = Vec::new();
        let mut i: usize = 0;
        while i < self.abi.len()
            invariant
                i <= self.abi@.len(),
                abi@.len() == i,
                forall|k: int| 0 <= k < i ==> #[trigger] abi@[k].view() == abi_entry_json(self.abi@[k]@),
            decreases self.abi@.len() - i,
        {
            abi.push(self.abi[i].to_json());
            i = i + 1;
        }
        assert(views_of(abi@) =~= v.abi.map_values(|e: (AbiEntryView, AbiEntryType)| abi_entry_json(e)));
        let eps = legacy_groups_to_json(&self.entry_points_by_type);
        let fs = vec![
            (String::from_str("program"), self.program),
            (String::from_str("abi"), JsonValue::array(abi)),
            (String::from_str("entry_points_by_type"), eps),
        ];
        assert(fields_view(fs@) =~= legacy_internal_json(v)->Object_0);
        JsonValue::object(fs)
    }
}


/// Decimal digits of a number, most significant first.
pub open spec fn decimal_text(n: nat) -> Seq<char>
    decreases n,
{
    if n < 10 {
        seq![lower_hex_char(n as u8)]
    } else {
        decimal_text(n / 10).push(lower_hex_char((n % 10) as u8))
    }
}

fn decimal_string(n: u64) -> (r: String)
    ensures
        r@ == decimal_text(n as nat),
    decreases n,
{
    if n < 10 {
        String::from_str(lower_hex_str(n as u8))
    } else {
        let mut s = decimal_string(n / 10);
        s.append(lower_hex_str((n % 10) as u8));
        s
    }
}

pub open spec fn sierra_entry_point_json(e: (Seq<u8>, u64)) -> Json {
    Json::Object(
        seq![("selector"@, Json::Str(felt_text(e.0))), ("function_idx"@, Json::Number(decimal_text(e.1 as nat)))],
    )
}

pub open spec fn sierra_group_json(g: (EntryPointType, Seq<(Seq<u8>, u64)>)) -> (Seq<char>, Json) {
    (type_key(g.0), Json::Array(g.1.map_values(|e: (Seq<u8>, u64)| sierra_entry_point_json(e))))
}

/// The wire form of a new-IR class; `abi` is written only when present.
pub open spec fn sierra_json(c: SierraView) -> Json {
    Json::Object(
        seq![
            ("sierra_program"@, Json::Array(c.sierra_program.map_values(|d: Seq<u8>| Json::Str(felt_text(d))))),
            ("contract_class_version"@, Json::Str(c.contract_class_version)),
            ("entry_points_by_type"@, Json::Object(c.entry_points_by_type.map_values(
                |g: (EntryPointType, Seq<(Seq<u8>, u64)>)| sierra_group_json(g),
            ))),
        ].add(
            match c.abi {
                Some(a) => seq![("abi"@, Json::Str(a))],
                None => Seq::empty(),
            },
        ),
    )
}

/// The wire form of a contract class of either schema.
pub open spec fn contract_class_json(c: ContractClassView) -> Json {
    match c {
        ContractClassView::Cairo0(l) => legacy_internal_json(l),
        ContractClassView::Sierra(s) => sierra_json(s),
    }
}

fn sierra_entry_point_to_json(e: &SierraEntryPoint) -> (r: JsonValue)
    ensures
        r.view() == sierra_entry_point_json(e@),
{
    let fs = vec![
        (String::from_str("selector"), JsonValue::Str(e.selector.encode())),
        (String::from_str("function_idx"), JsonValue::Number(decimal_string(e.function_idx))),
    ];
    assert(fields_view(fs@) =~= seq![
        ("selector"@, Json::Str(felt_text(e.selector@))),
        ("function_idx"@, Json::Number(decimal_text(e.function_idx as nat))),
    ]);
    JsonValue::object(fs)
}

fn sierra_groups_to_json(groups: &EntryPointGroups<SierraEntryPoint>) -> (r: JsonValue)
    ensures
        r.view() == Json::Object(groups_view(groups@).map_values(
            |g: (EntryPointType, Seq<(Seq<u8>, u64)>)| sierra_group_json(g),
        )),
{
    let mut fs: Vec<(String, JsonValue)> = Vec::new();
    let mut i: usize = 0;
    while i < groups.len()
        invariant
            i <= groups@.len(),
            fs@.len() == i,
            forall|k: int| 0 <= k < i ==> #[trigger] fields_view(fs@)[k] == sierra_group_json(
                groups_view(groups@)[k],
            ),
        decreases groups@.len() - i,
    {
        let es = &groups[i].1;
        let mut items: Vec<JsonValue> = Vec::new();
        let mut j: usize = 0;
        while j < es.len()
            invariant
                j <= es@.len(),
                items@.len() == j,
                forall|k: int| 0 <= k < j ==> #[trigger] items@[k].view() == sierra_entry_point_json(es@[k]@),
            decreases es@.len() - j,
        {
            items.push(sierra_entry_point_to_json(&es[j]));
            j = j + 1;
        }
        let ghost ev = es@.map_values(|e: SierraEntryPoint| e@);
        assert(views_of(items@) =~= ev.map_values(|e: (Seq<u8>, u64)| sierra_entry_point_json(e)));
        let ghost before = fs@;
        let ghost item_views = views_of(items@);
        fs.push((type_key_string(groups[i].0), JsonValue::array(items)));
        assert forall|k: int| 0 <= k < i + 1 implies #[trigger] fields_view(fs@)[k] == sierra_group_json(
            groups_view(groups@)[k],
        ) by {
            if k < i {
                assert(fs@[k] == before[k]);
                assert(fields_view(fs@)[k] == fields_view(before)[k]);
            } else {
                assert(groups_view(groups@)[k] == (groups@[k].0, ev));
                assert(fields_view(fs@)[k] == (type_key(groups@[k].0), Json::Array(item_views)));
            }
        }
        i = i + 1;
    }
    assert(fields_view(fs@) =~= groups_view(groups@).map_values(
        |g: (EntryPointType, Seq<(Seq<u8>, u64)>)| sierra_group_json(g),
    ));
    JsonValue::object(fs)
}

impl SierraContractClass {
    /// The wire form: program words as hex text, the version, the grouped
    /// entry points, and `abi` when there is one.
    pub fn to_json(&self) -> (r: JsonValue)
        ensures
            r.view() == sierra_json(self@),
    {
        let ghost v = self@;
        let mut words: Vec<JsonValue> = Vec::new();
        let mut i: usize = 0;
        while i < self.sierra_program.len()
            invariant
                i <= self.sierra_program@.len(),
                words@.len() == i,
                forall|k: int| 0 <= k < i ==> #[trigger] words@[k].view() == Json::Str(felt_text(self.sierra_program@[k]@)),
            decreases self.sierra_program@.len() - i,
        {
            words.push(JsonValue::Str(self.sierra_program[i].encode()));
            i = i + 1;
        }
        assert(views_of(words@) =~= v.sierra_program.map_values(|d: Seq<u8>| Json::Str(felt_text(d))));
        let mut fs = vec![
            (String::from_str("sierra_program"), JsonValue::array(words)),
            (String::from_str("contract_class_version"), JsonValue::Str(self.contract_class_version.clone())),
            (String::from_str("entry_points_by_type"), sierra_groups_to_json(&self.entry_points_by_type)),
        ];
        match &self.abi {
            Some(a) => {
                fs.push((String::from_str("abi"), JsonValue::Str(a.clone())));
            },
            None => {},
        }
        assert(fields_view(fs@) =~= sierra_json(v)->Object_0);
        JsonValue::object(fs)
    }
}

impl ContractClass {
    /// The wire form of either schema.
    pub fn into_json(self) -> (r: JsonValue)
        ensures
            r.view() == contract_class_json(self@),
    {
        match self {
            ContractClass::Cairo0(c) => c.into_json(),
            ContractClass::Sierra(s) => s.to_json(),
        }
    }
}

} // verus!
