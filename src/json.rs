//! JSON values, their mathematical view, and key canonicalization.
use vstd::prelude::*;

verus! {

/// A JSON value; a number is kept as its JSON text.
#[derive(Debug)]
pub enum JsonValue {
    Null,
    Bool(bool),
    Number(String),
    Str(String),
    Array(Vec<JsonValue>),
    Object(Vec<(String, JsonValue)>),
}

/// The mathematical form of a JSON value.
pub enum Json {
    Null,
    Bool(bool),
    Number(Seq<char>),
    Str(Seq<char>),
    Array(Seq<Json>),
    Object(Seq<(Seq<char>, Json)>),
}

pub open spec fn json_view(v: JsonValue) -> Json
    decreases v,
{
    match v {
        JsonValue::Null => Json::Null,
        JsonValue::Bool(b) => Json::Bool(b),
        JsonValue::Number(n) => Json::Number(n@),
        JsonValue::Str(s) => Json::Str(s@),
        JsonValue::Array(xs) => Json::Array(
            Seq::new(xs@.len(), |i: int| if 0 <= i < xs@.len() { json_view(xs@[i]) } else { Json::Null }),
        ),
        JsonValue::Object(fs) => Json::Object(
            Seq::new(fs@.len(), |i: int| if 0 <= i < fs@.len() { (fs@[i].0@, json_view(fs@[i].1)) } else { (Seq::empty(), Json::Null) }),
        ),
    }
}


/// The views of a run of values.
pub open spec fn views_of(xs: Seq<JsonValue>) -> Seq<Json> {
    xs.map_values(|x: JsonValue| x.view())
}

/// The view of an object's fields.
pub open spec fn fields_view(fs: Seq<(String, JsonValue)>) -> Seq<(Seq<char>, Json)> {
    Seq::new(fs.len(), |i: int| (fs[i].0@, json_view(fs[i].1)))
}

/// Lexicographic order of keys by Unicode code point.
pub open spec fn key_lt(a: Seq<char>, b: Seq<char>) -> bool
    decreases a.len(),
{
    if a.len() == 0 {
        b.len() > 0
    } else if b.len() == 0 {
        false
    } else if a[0] != b[0] {
        (a[0] as u32) < (b[0] as u32)
    } else {
        key_lt(a.skip(1), b.skip(1))
    }
}

/// Puts a field after every field whose key is not greater than its own.
pub open spec fn insert_field(s: Seq<(Seq<char>, Json)>, e: (Seq<char>, Json)) -> Seq<(Seq<char>, Json)>
    decreases s.len(),
{
    if s.len() == 0 {
        seq![e]
    } else if key_lt(e.0, s[0].0) {
        seq![e].add(s)
    } else {
        seq![s[0]].add(insert_field(s.skip(1), e))
    }
}

/// Stable sort of fields by key.
pub open spec fn sort_fields(s: Seq<(Seq<char>, Json)>) -> Seq<(Seq<char>, Json)>
    decreases s.len(),
{
    if s.len() == 0 {
        s
    } else {
        insert_field(sort_fields(s.drop_last()), s.last())
    }
}

/// The value with every object's keys sorted, at every depth; arrays keep their
/// order and scalars are unchanged.
pub open spec fn canonical(v: Json) -> Json
    decreases v,
{
    match v {
        Json::Array(xs) => Json::Array(
            Seq::new(xs.len(), |i: int| if 0 <= i < xs.len() { canonical(xs[i]) } else { Json::Null }),
        ),
        Json::Object(fs) => Json::Object(sort_fields(canonical_values(fs))),
        _ => v,
    }
}

/// Each field's value made canonical, keys and order unchanged.
pub open spec fn canonical_values(fs: Seq<(Seq<char>, Json)>) -> Seq<(Seq<char>, Json)>
    decreases fs,
{
    Seq::new(
        fs.len(),
        |i: int| if 0 <= i < fs.len() { (fs[i].0, canonical(fs[i].1)) } else { (Seq::empty(), Json::Null) },
    )
}

/// Keys in non-decreasing order.
pub open spec fn fields_sorted(s: Seq<(Seq<char>, Json)>) -> bool {
    forall|i: int, j: int| 0 <= i < j < s.len() ==> !key_lt(#[trigger] s[j].0, #[trigger] s[i].0)
}

/// Every object, at every depth, has its keys in order.
pub open spec fn is_canonical(v: Json) -> bool
    decreases v,
{
    match v {
        Json::Array(xs) => forall|i: int| 0 <= i < xs.len() ==> is_canonical(#[trigger] xs[i]),
        Json::Object(fs) => fields_sorted(fs) && forall|i: int|
            0 <= i < fs.len() ==> is_canonical(#[trigger] fs[i].1),
        _ => true,
    }
}

proof fn lemma_key_lt_irreflexive(a: Seq<char>)
    ensures
        !key_lt(a, a),
    decreases a.len(),
{
    if a.len() > 0 {
        lemma_key_lt_irreflexive(a.skip(1));
    }
}

proof fn lemma_key_lt_transitive(a: Seq<char>, b: Seq<char>, c: Seq<char>)
    requires
        key_lt(a, b),
        key_lt(b, c),
    ensures
        key_lt(a, c),
    decreases a.len(),
{
    if a.len() > 0 && b.len() > 0 && c.len() > 0 && a[0] == b[0] && b[0] == c[0] {
        lemma_key_lt_transitive(a.skip(1), b.skip(1), c.skip(1));
    }
}

proof fn lemma_insert_sorted(s: Seq<(Seq<char>, Json)>, e: (Seq<char>, Json), p: spec_fn((Seq<char>, Json)) -> bool)
    requires
        fields_sorted(s),
        forall|i: int| 0 <= i < s.len() ==> p(#[trigger] s[i]),
        p(e),
    ensures
        fields_sorted(insert_field(s, e)),
        forall|i: int| 0 <= i < insert_field(s, e).len() ==> p(#[trigger] insert_field(s, e)[i]),
        insert_field(s, e).len() == s.len() + 1,
    decreases s.len(),
{
    let r = insert_field(s, e);
    if s.len() == 0 {
    } else if key_lt(e.0, s[0].0) {
        assert(r =~= seq![e].add(s));
        assert forall|i: int, j: int| 0 <= i < j < r.len() implies !key_lt(#[trigger] r[j].0, #[trigger] r[i].0) by {
            if i == 0 {
                if key_lt(s[j - 1].0, e.0) {
                    lemma_key_lt_transitive(s[j - 1].0, e.0, s[0].0);
                    if j - 1 == 0 {
                        lemma_key_lt_irreflexive(s[0].0);
                    }
                }
            } else {
                assert(r[i] == s[i - 1] && r[j] == s[j - 1]);
            }
        }
    } else {
        let t = s.skip(1);
        assert forall|i: int, j: int| 0 <= i < j < t.len() implies !key_lt(#[trigger] t[j].0, #[trigger] t[i].0) by {
            assert(t[i] == s[i + 1] && t[j] == s[j + 1]);
        }
        assert forall|i: int| 0 <= i < t.len() implies p(#[trigger] t[i]) by {
            assert(t[i] == s[i + 1]);
        }
        lemma_insert_sorted(t, e, p);
        let q = insert_field(t, e);
        assert(r =~= seq![s[0]].add(q));
        assert forall|j: int| 0 <= j < q.len() implies !key_lt(#[trigger] q[j].0, s[0].0) by {
            if q[j] != e {
                assert(exists|k: int| 0 <= k < t.len() && q[j] == t[k]) by {
                    lemma_insert_member(t, e, j);
                }
                let k = choose|k: int| 0 <= k < t.len() && q[j] == t[k];
                assert(t[k] == s[k + 1]);
            }
        }
        assert forall|i: int, j: int| 0 <= i < j < r.len() implies !key_lt(#[trigger] r[j].0, #[trigger] r[i].0) by {
            if i == 0 {
                assert(r[j] == q[j - 1]);
            } else {
                assert(r[i] == q[i - 1] && r[j] == q[j - 1]);
            }
        }
        assert forall|i: int| 0 <= i < r.len() implies p(#[trigger] r[i]) by {
            if i > 0 {
                assert(r[i] == q[i - 1]);
            }
        }
    }
}

proof fn lemma_insert_member(s: Seq<(Seq<char>, Json)>, e: (Seq<char>, Json), j: int)
    requires
        0 <= j < insert_field(s, e).len(),
        insert_field(s, e)[j] != e,
    ensures
        exists|k: int| 0 <= k < s.len() && insert_field(s, e)[j] == s[k],
    decreases s.len(),
{
    let r = insert_field(s, e);
    if s.len() == 0 {
    } else if key_lt(e.0, s[0].0) {
        assert(r =~= seq![e].add(s));
        assert(r[j] == s[j - 1]);
    } else {
        let t = s.skip(1);
        assert(r =~= seq![s[0]].add(insert_field(t, e)));
        if j == 0 {
            assert(r[j] == s[0]);
        } else {
            lemma_insert_member(t, e, j - 1);
            let k = choose|k: int| 0 <= k < t.len() && insert_field(t, e)[j - 1] == t[k];
            assert(t[k] == s[k + 1]);
        }
    }
}

proof fn lemma_sort_sorted(s: Seq<(Seq<char>, Json)>, p: spec_fn((Seq<char>, Json)) -> bool)
    requires
        forall|i: int| 0 <= i < s.len() ==> p(#[trigger] s[i]),
    ensures
        fields_sorted(sort_fields(s)),
        forall|i: int| 0 <= i < sort_fields(s).len() ==> p(#[trigger] sort_fields(s)[i]),
        sort_fields(s).len() == s.len(),
    decreases s.len(),
{
    if s.len() > 0 {
        let d = s.drop_last();
        assert forall|i: int| 0 <= i < d.len() implies p(#[trigger] d[i]) by {
            assert(d[i] == s[i]);
        }
        lemma_sort_sorted(d, p);
        lemma_insert_sorted(sort_fields(d), s.last(), p);
    }
}

proof fn lemma_sort_of_sorted(s: Seq<(Seq<char>, Json)>)
    requires
        fields_sorted(s),
    ensures
        sort_fields(s) == s,
    decreases s.len(),
{
    if s.len() > 0 {
        let d = s.drop_last();
        assert forall|i: int, j: int| 0 <= i < j < d.len() implies !key_lt(#[trigger] d[j].0, #[trigger] d[i].0) by {
            assert(d[i] == s[i] && d[j] == s[j]);
        }
        lemma_sort_of_sorted(d);
        assert forall|k: int| 0 <= k < d.len() implies !key_lt(s.last().0, #[trigger] d[k].0) by {
            assert(d[k] == s[k]);
        }
        lemma_insert_at(d, s.last(), d.len() as int);
        assert(d.take(d.len() as int).push(s.last()).add(d.skip(d.len() as int)) =~= s);
    }
}

proof fn lemma_canonical_fixed(v: Json)
    requires
        is_canonical(v),
    ensures
        canonical(v) == v,
    decreases v,
{
    match v {
        Json::Array(xs) => {
            let c = canonical(v)->Array_0;
            assert forall|i: int| 0 <= i < xs.len() implies c[i] == xs[i] by {
                lemma_canonical_fixed(xs[i]);
            }
            assert(c =~= xs);
        },
        Json::Object(fs) => {
            let m = canonical_values(fs);
            assert forall|i: int| 0 <= i < fs.len() implies m[i] == fs[i] by {
                lemma_canonical_fixed(fs[i].1);
            }
            assert(m =~= fs);
            lemma_sort_of_sorted(fs);
        },
        _ => {},
    }
}

/// A canonicalized value has the keys of every object, at every depth, in order.
pub proof fn lemma_canonical_is_canonical(v: Json)
    ensures
        is_canonical(canonical(v)),
    decreases v,
{
    match v {
        Json::Array(xs) => {
            let c = canonical(v)->Array_0;
            assert forall|i: int| 0 <= i < c.len() implies is_canonical(#[trigger] c[i]) by {
                lemma_canonical_is_canonical(xs[i]);
            }
        },
        Json::Object(fs) => {
            let m = canonical_values(fs);
            let p = |e: (Seq<char>, Json)| is_canonical(e.1);
            assert forall|i: int| 0 <= i < m.len() implies p(#[trigger] m[i]) by {
                lemma_canonical_is_canonical(fs[i].1);
            }
            lemma_sort_sorted(m, p);
            let r = sort_fields(m);
            assert forall|i: int| 0 <= i < r.len() implies is_canonical(#[trigger] r[i].1) by {
                assert(p(r[i]));
            }
        },
        _ => {},
    }
}

/// Canonicalizing twice gives what canonicalizing once gives.
pub proof fn lemma_canonical_idempotent(v: Json)
    ensures
        canonical(canonical(v)) == canonical(v),
{
    lemma_canonical_is_canonical(v);
    lemma_canonical_fixed(canonical(v));
}

/// Compares two keys by code point, lexicographically.
pub fn key_less(a: &String, b: &String) -> (r: bool)
    ensures
        r == key_lt(a@, b@),
{
    let sa = a.as_str();
    let sb = b.as_str();
    let na = sa.unicode_len();
    let nb = sb.unicode_len();
    let mut i: usize = 0;
    assert(a@.skip(0) =~= a@ && b@.skip(0) =~= b@);
    while i < na && i < nb
        invariant
            na == a@.len(),
            nb == b@.len(),
            sa@ == a@,
            sb@ == b@,
            i <= na,
            i <= nb,
            key_lt(a@, b@) == key_lt(a@.skip(i as int), b@.skip(i as int)),
        decreases na - i,
    {
        let ca = sa.get_char(i);
        let cb = sb.get_char(i);
        let ghost x = a@.skip(i as int);
        let ghost y = b@.skip(i as int);
        assert(x[0] == ca && y[0] == cb);
        if ca != cb {
            return (ca as u32) < (cb as u32);
        }
        assert(x.skip(1) =~= a@.skip(i + 1));
        assert(y.skip(1) =~= b@.skip(i + 1));
        i = i + 1;
    }
    i == na && i < nb
}

proof fn lemma_insert_at(s: Seq<(Seq<char>, Json)>, e: (Seq<char>, Json), j: int)
    requires
        0 <= j <= s.len(),
        forall|k: int| 0 <= k < j ==> !key_lt(e.0, #[trigger] s[k].0),
        j < s.len() ==> key_lt(e.0, s[j].0),
    ensures
        insert_field(s, e) == s.take(j).push(e).add(s.skip(j)),
    decreases j,
{
    if j == 0 {
        if s.len() == 0 {
            assert(s.take(0).push(e).add(s.skip(0)) =~= seq![e]);
        } else {
            assert(s.take(0).push(e).add(s.skip(0)) =~= seq![e].add(s));
        }
    } else {
        let t = s.skip(1);
        assert forall|k: int| 0 <= k < j - 1 implies !key_lt(e.0, #[trigger] t[k].0) by {
            assert(t[k] == s[k + 1]);
        }
        lemma_insert_at(t, e, j - 1);
        assert(seq![s[0]].add(t.take(j - 1).push(e).add(t.skip(j - 1))) =~= s.take(j).push(e).add(s.skip(j)));
    }
}

fn insert_field_exec(res: &mut Vec<(String, JsonValue)>, e: (String, JsonValue))
    ensures
        fields_view(final(res)@) == insert_field(fields_view(old(res)@), (e.0@, json_view(e.1))),
{
    let ghost s = fields_view(res@);
    let mut j: usize = 0;
    while j < res.len() && !key_less(&e.0, &res[j].0)
        invariant
            j <= res@.len(),
            s == fields_view(res@),
            forall|k: int| 0 <= k < j ==> !key_lt(e.0@, #[trigger] s[k].0),
        decreases res@.len() - j,
    {
        j = j + 1;
    }
    proof {
        lemma_insert_at(s, (e.0@, json_view(e.1)), j as int);
    }
    let ghost ev = (e.0@, json_view(e.1));
    res.insert(j, e);
    assert(fields_view(res@) =~= s.take(j as int).push(ev).add(s.skip(j as int)));
}

/// The value of the first field named `k`.
pub open spec fn field_of(fs: Seq<(Seq<char>, Json)>, k: Seq<char>) -> Option<Json>
    decreases fs.len(),
{
    if fs.len() == 0 {
        None
    } else if fs[0].0 == k {
        Some(fs[0].1)
    } else {
        field_of(fs.skip(1), k)
    }
}

/// The member `k` of an object; nothing for other values.
pub open spec fn json_get(v: Json, k: Seq<char>) -> Option<Json> {
    match v {
        Json::Object(fs) => field_of(fs, k),
        _ => None,
    }
}

/// The member `k` of an object when it is a string.
pub open spec fn json_get_str(v: Json, k: Seq<char>) -> Option<Seq<char>> {
    match json_get(v, k) {
        Some(Json::Str(s)) => Some(s),
        _ => None,
    }
}

pub open spec fn opt_string_view(o: Option<String>) -> Option<Seq<char>> {
    match o {
        Some(s) => Some(s@),
        None => None,
    }
}

impl JsonValue {
    /// An object with these fields, in this order.
    pub fn object(fs: Vec<(String, JsonValue)>) -> (r: JsonValue)
        ensures
            r.view() == Json::Object(fields_view(fs@)),
    {
        let r = JsonValue::Object(fs);
        assert(r.view()->Object_0 =~= fields_view(fs@));
        r
    }

    /// An array of these items, in this order.
    pub fn array(xs: Vec<JsonValue>) -> (r: JsonValue)
        ensures
            r.view() == Json::Array(views_of(xs@)),
    {
        let r = JsonValue::Array(xs);
        assert(r.view()->Array_0 =~= views_of(xs@));
        r
    }

    /// The member named `key` of an object: its first field of that name.
    pub fn get(&self, key: &str) -> (r: Option<&JsonValue>)
        ensures
            match r {
                Some(x) => json_get(self.view(), key@) == Some(x.view()),
                None => json_get(self.view(), key@) is None,
            },
    {
        match self {
            JsonValue::Object(fs) => {
                let k = String::from_str(key);
                let ghost all = self.view()->Object_0;
                assert(all =~= fields_view(fs@));
                assert(self.view() == Json::Object(all));
                let mut i: usize = 0;
                assert(all.skip(0) =~= all);
                while i < fs.len()
                    invariant
                        i <= fs@.len(),
                        all == fields_view(fs@),
                        self.view() == Json::Object(all),
                        k@ == key@,
                        field_of(all, key@) == field_of(all.skip(i as int), key@),
                    decreases fs@.len() - i,
                {
                    assert(all.skip(i as int)[0] == all[i as int]);
                    if fs[i].0 == k {
                        return Some(&fs[i].1);
                    }
                    assert(all.skip(i as int).skip(1) =~= all.skip(i + 1));
                    i = i + 1;
                }
                None
            },
            _ => None,
        }
    }

    /// The member named `key` when it is a string.
    pub fn get_str(&self, key: &str) -> (r: Option<String>)
        ensures
            opt_string_view(r) == json_get_str(self.view(), key@),
    {
        match self.get(key) {
            Some(JsonValue::Str(s)) => Some(s.clone()),
            _ => None,
        }
    }

    /// The items of an array.
    pub fn as_array(&self) -> (r: Option<&Vec<JsonValue>>)
        ensures
            r is Some <==> self.view() is Array,
            r matches Some(xs) ==> xs@.len() == self.view()->Array_0.len() && forall|i: int|
                0 <= i < xs@.len() ==> #[trigger] xs@[i].view() == self.view()->Array_0[i],
    {
        match self {
            JsonValue::Array(xs) => Some(xs),
            _ => None,
        }
    }

    pub open spec fn view(&self) -> Json {
        json_view(*self)
    }

    /// A copy of this value with the keys of every object sorted by code point,
    /// at every depth; equal keys keep their order.
    pub fn canonicalize(&self) -> (r: JsonValue)
        ensures
            r.view() == canonical(self.view()),
        decreases self,
    {
        match self {
            JsonValue::Null => JsonValue::Null,
            JsonValue::Bool(b) => JsonValue::Bool(*b),
            JsonValue::Number(n) => JsonValue::Number(n.clone()),
            JsonValue::Str(t) => JsonValue::Str(t.clone()),
            JsonValue::Array(xs) => {
                let mut out: Vec<JsonValue> = Vec::new();
                let mut i: usize = 0;
                while i < xs.len()
                    invariant
                        i <= xs@.len(),
                        *self == JsonValue::Array(*xs),
                        out@.len() == i,
                        forall|k: int| 0 <= k < i ==> #[trigger] json_view(out@[k]) == canonical(json_view(xs@[k])),
                    decreases xs@.len() - i,
                {
                    proof {
                        broadcast use vstd::std_specs::vec::axiom_vec_decreases_to_view, vstd::seq::axiom_seq_index_decreases;
                        assert(*self == JsonValue::Array(*xs));
                        assert(decreases_to!(*self => self->Array_0));
                        assert(decreases_to!(*xs => xs@));
                        assert(decreases_to!(xs@ => xs@[i as int]));
                        assert(decreases_to!(*self => xs@[i as int]));
                    }
                    let c = xs[i].canonicalize();
                    out.push(c);
                    i = i + 1;
                }
                let r = JsonValue::Array(out);
                assert(r.view() == canonical(self.view())) by {
                    let a = r.view()->Array_0;
                    let x = self.view()->Array_0;
                    let b = canonical(self.view())->Array_0;
                    assert(a.len() == b.len());
                    assert forall|k: int| 0 <= k < a.len() implies a[k] == b[k] by {
                        assert(a[k] == json_view(out@[k]));
                        assert(x[k] == json_view(xs@[k]));
                        assert(b[k] == canonical(x[k]));
                    }
                    assert(a =~= b);
                }
                r
            },
            JsonValue::Object(fs) => {
                let ghost mapped = Seq::new(
                    fs@.len(),
                    |k: int| (fs@[k].0@, canonical(json_view(fs@[k].1))),
                );
                let mut out: Vec<(String, JsonValue)> = Vec::new();
                let mut i: usize = 0;
                while i < fs.len()
                    invariant
                        i <= fs@.len(),
                        mapped.len() == fs@.len(),
                        *self == JsonValue::Object(*fs),
                        forall|k: int| 0 <= k < fs@.len() ==> #[trigger] mapped[k] == (fs@[k].0@, canonical(json_view(fs@[k].1))),
                        fields_view(out@) == sort_fields(mapped.take(i as int)),
                    decreases fs@.len() - i,
                {
                    proof {
                        broadcast use vstd::std_specs::vec::axiom_vec_decreases_to_view, vstd::seq::axiom_seq_index_decreases;
                        assert(*self == JsonValue::Object(*fs));
                        assert(decreases_to!(*self => self->Object_0));
                        assert(decreases_to!(*fs => fs@));
                        assert(decreases_to!(fs@[i as int] => fs@[i as int].1));
                        assert(decreases_to!(fs@ => fs@[i as int]));
                        assert(decreases_to!(*self => fs@[i as int].1));
                    }
                    let c = fs[i].1.canonicalize();
                    let k = fs[i].0.clone();
                    let ghost before = fields_view(out@);
                    assert(mapped[i as int] == (k@, json_view(c)));
                    insert_field_exec(&mut out, (k, c));
                    assert(fields_view(out@) == insert_field(before, mapped[i as int]));
                    assert(mapped.take(i + 1).drop_last() =~= mapped.take(i as int));
                    assert(mapped.take(i + 1).last() == mapped[i as int]);
                    assert(sort_fields(mapped.take(i + 1)) == insert_field(
                        sort_fields(mapped.take(i as int)),
                        mapped[i as int],
                    ));
                    i = i + 1;
                }
                assert(mapped.take(i as int) =~= mapped);
                let r = JsonValue::Object(out);
                assert(r.view() == canonical(self.view())) by {
                    let b = self.view()->Object_0;
                    assert(b.len() == fs@.len());
                    assert forall|k: int| 0 <= k < b.len() implies b[k] == (fs@[k].0@, json_view(fs@[k].1)) by {}
                    let m2 = canonical_values(b);
                    assert(m2 =~= mapped);
                    let a = r.view()->Object_0;
                    assert(a.len() == out@.len());
                    assert forall|k: int| 0 <= k < a.len() implies a[k] == (out@[k].0@, json_view(out@[k].1)) by {}
                    assert(a =~= fields_view(out@));
                    assert(canonical(self.view())->Object_0 =~= sort_fields(mapped));
                }
                r
            },
        }
    }
}

} // verus!
