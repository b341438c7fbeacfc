//! The OpenCode credential store: its schema, the summaries shown to the
//! user, and the redacted debug text.
use vstd::prelude::*;
use std::path::PathBuf;
use crate::json::{
    Json, JsonValue, NumberView, json_view, json_fields_view, json_items_view, ref_view,
    clone_json, lemma_fields_view, lemma_items_view, field_value, item_value, string_field,
    u64_field, opt_string_field, any_field, find_field, lookup, item, take_string, take_u64,
    take_opt_string, opt_string_view,
};
use crate::text::{
    str_equal, str_less, text_lt, lemma_text_lt_irreflexive, lemma_text_lt_transitive,
    lemma_text_lt_total, str_is_blank, is_blank, decimal, push_decimal, debug_text, debug_quoted};
use crate::terminal::{sanitize_terminal, sanitized};
use crate::json::{
    json_document, parse_json_document, keys_ascending, objects_sorted, lemma_field_value_member,
};

verus! {

broadcast use vstd::string::group_string_axioms;

#[verifier::external_type_specification]
#[verifier::external_body]
pub struct ExPathBuf(PathBuf);

/// Where a credential snapshot came from.
#[derive(Clone, Copy, Debug, PartialEq, Eq, Structural)]
pub enum AuthSource {
    Env,
    File,
    Missing,
}

/// The kind of a stored credential.
#[derive(Clone, Copy, Debug, PartialEq, Eq, Structural)]
pub enum ProviderKind {
    Oauth,
    Api,
    Wellknown,
}

/// Whether a credential can be used by the rover.
#[derive(Clone, Copy, Debug, PartialEq, Eq, Structural)]
pub enum ProviderPolicy {
    Usable,
    UnsupportedCredential,
    LocalModelConfig,
}

/// Whether an OAuth token is still valid at the time of a summary.
#[derive(Clone, Copy, Debug, PartialEq, Eq, Structural)]
pub enum ExpiryState {
    Valid,
    Expired,
}

/// A secret that is never shown: its text form is `[redacted]`.
#[derive(Clone, PartialEq, Eq)]
pub struct SecretString(String);

impl View for SecretString {
    type V = Seq<char>;

    closed spec fn view(&self) -> Seq<char> {
        self.0@
    }
}

impl SecretString {
    /// The text shown for any secret.
    pub fn to_string(&self) -> (r: String)
        ensures
            r@ == "[redacted]"@,
    {
        String::from_str("[redacted]")
    }
}

/// An OAuth credential.
#[derive(Clone, PartialEq, Eq)]
pub struct OauthAuth {
    refresh: SecretString,
    access: SecretString,
    expires: u64,
    account_id: Option<String>,
    enterprise_url: Option<String>,
}

/// An API-key credential, with the metadata object stored beside it.
#[derive(Clone, PartialEq, Eq)]
pub struct ApiAuth {
    key: SecretString,
    metadata: Option<Json>,
}

/// A well-known credential (key and token).
#[derive(Clone, PartialEq, Eq)]
pub struct WellknownAuth {
    key: SecretString,
    token: SecretString,
}

/// One stored credential.
#[derive(Clone, PartialEq, Eq)]
pub enum ProviderEntry {
    Oauth(OauthAuth),
    Api(ApiAuth),
    Wellknown(WellknownAuth),
}

pub struct OauthView {
    pub refresh: Seq<char>,
    pub access: Seq<char>,
    pub expires: u64,
    pub account_id: Option<Seq<char>>,
    pub enterprise_url: Option<Seq<char>>,
}

pub struct ApiView {
    pub key: Seq<char>,
    pub metadata: Option<JsonValue>,
}

pub struct WellknownView {
    pub key: Seq<char>,
    pub token: Seq<char>,
}

/// The model of a [`ProviderEntry`].
pub enum EntryView {
    Oauth(OauthView),
    Api(ApiView),
    Wellknown(WellknownView),
}

pub open spec fn opt_json_view(o: Option<Json>) -> Option<JsonValue> {
    match o {
        Some(j) => Some(j@),
        None => None,
    }
}

impl View for ProviderEntry {
    type V = EntryView;

    closed spec fn view(&self) -> EntryView {
        match self {
            ProviderEntry::Oauth(a) => EntryView::Oauth(
                OauthView {
                    refresh: a.refresh@,
                    access: a.access@,
                    expires: a.expires,
                    account_id: opt_string_view(a.account_id),
                    enterprise_url: opt_string_view(a.enterprise_url),
                },
            ),
            ProviderEntry::Api(a) => EntryView::Api(
                ApiView { key: a.key@, metadata: opt_json_view(a.metadata) },
            ),
            ProviderEntry::Wellknown(a) => EntryView::Wellknown(
                WellknownView { key: a.key@, token: a.token@ },
            ),
        }
    }
}

// ---------------------------------------------------------------------------
// The schema of one entry.
//
// An entry is an object whose "type" field names its kind ("oauth", "api",
// "wellknown"); an object without "type" may name it in "kind" instead. Only
// the kind's own fields may stand beside the tag. An entry may also be an
// array: the tag first, then the kind's fields in declaration order.
// ---------------------------------------------------------------------------

pub open spec fn kind_of_tag(t: Seq<char>) -> Option<ProviderKind> {
    if t == "oauth"@ {
        Some(ProviderKind::Oauth)
    } else if t == "api"@ {
        Some(ProviderKind::Api)
    } else if t == "wellknown"@ {
        Some(ProviderKind::Wellknown)
    } else {
        None
    }
}

/// The number of fields of a kind.
pub open spec fn field_count(k: ProviderKind) -> int {
    match k {
        ProviderKind::Oauth => 5,
        ProviderKind::Api => 2,
        ProviderKind::Wellknown => 2,
    }
}

/// The field names of a kind, in declaration order.
pub open spec fn field_name(k: ProviderKind, i: int) -> Seq<char> {
    match k {
        ProviderKind::Oauth => if i == 0 {
            "refresh"@
        } else if i == 1 {
            "access"@
        } else if i == 2 {
            "expires"@
        } else if i == 3 {
            "accountId"@
        } else {
            "enterpriseUrl"@
        },
        ProviderKind::Api => if i == 0 {
            "key"@
        } else {
            "metadata"@
        },
        ProviderKind::Wellknown => if i == 0 {
            "key"@
        } else {
            "token"@
        },
    }
}

pub open spec fn is_field_name(k: ProviderKind, n: Seq<char>) -> bool {
    exists|i: int| 0 <= i < field_count(k) && field_name(k, i) == n
}

/// The entry of kind `k` built from its fields' values, given in
/// declaration order (absent ones as `None`).
pub open spec fn entry_of_kind(
    k: ProviderKind,
    f0: Option<JsonValue>,
    f1: Option<JsonValue>,
    f2: Option<JsonValue>,
    f3: Option<JsonValue>,
    f4: Option<JsonValue>,
) -> Option<EntryView> {
    match k {
        ProviderKind::Oauth => match (
            string_field(f0),
            string_field(f1),
            u64_field(f2),
            opt_string_field(f3),
            opt_string_field(f4),
        ) {
            (Some(refresh), Some(access), Some(expires), Some(account_id), Some(enterprise_url)) => Some(
                EntryView::Oauth(OauthView { refresh, access, expires, account_id, enterprise_url }),
            ),
            _ => None,
        },
        ProviderKind::Api => match string_field(f0) {
            Some(key) => Some(EntryView::Api(ApiView { key, metadata: any_field(f1) })),
            None => None,
        },
        ProviderKind::Wellknown => match (string_field(f0), string_field(f1)) {
            (Some(key), Some(token)) => Some(EntryView::Wellknown(WellknownView { key, token })),
            _ => None,
        },
    }
}

/// The key that holds the tag: "type", or "kind" where "type" is absent.
pub open spec fn tag_key(fields: Seq<(Seq<char>, JsonValue)>) -> Seq<char> {
    if field_value(fields, "type"@) is Some {
        "type"@
    } else {
        "kind"@
    }
}

/// An entry written as an object.
pub open spec fn entry_from_fields(fields: Seq<(Seq<char>, JsonValue)>) -> Option<EntryView> {
    let tk = tag_key(fields);
    match string_field(field_value(fields, tk)) {
        Some(t) => match kind_of_tag(t) {
            Some(k) => if forall|i: int|
                0 <= i < fields.len() ==> #[trigger] fields[i].0 == tk || is_field_name(
                    k,
                    fields[i].0,
                ) {
                entry_of_kind(
                    k,
                    field_value(fields, field_name(k, 0)),
                    field_value(fields, field_name(k, 1)),
                    if field_count(k) > 2 { field_value(fields, field_name(k, 2)) } else { None },
                    if field_count(k) > 3 { field_value(fields, field_name(k, 3)) } else { None },
                    if field_count(k) > 4 { field_value(fields, field_name(k, 4)) } else { None },
                )
            } else {
                None
            },
            None => None,
        },
        None => None,
    }
}

/// An entry written as an array: the tag, then the fields in order.
pub open spec fn entry_from_items(items: Seq<JsonValue>) -> Option<EntryView> {
    match string_field(item_value(items, 0)) {
        Some(t) => match kind_of_tag(t) {
            Some(k) => if items.len() - 1 <= field_count(k) {
                entry_of_kind(
                    k,
                    item_value(items, 1),
                    item_value(items, 2),
                    item_value(items, 3),
                    item_value(items, 4),
                    item_value(items, 5),
                )
            } else {
                None
            },
            None => None,
        },
        None => None,
    }
}

/// The entry that a JSON value holds, or `None` where it is malformed.
pub open spec fn entry_from_json(v: JsonValue) -> Option<EntryView> {
    match v {
        JsonValue::Object(fields) => entry_from_fields(fields),
        JsonValue::Array(items) => entry_from_items(items),
        _ => None,
    }
}

fn take_any(v: Option<&Json>) -> (r: Option<Json>)
    ensures
        opt_json_view(r) == any_field(ref_view(v)),
{
    match v {
        None => None,
        Some(Json::Null) => None,
        Some(j) => Some(clone_json(j)),
    }
}

fn kind_from_tag(t: &str) -> (r: Option<ProviderKind>)
    ensures
        r == kind_of_tag(t@),
{
    if str_equal(t, "oauth") {
        Some(ProviderKind::Oauth)
    } else if str_equal(t, "api") {
        Some(ProviderKind::Api)
    } else if str_equal(t, "wellknown") {
        Some(ProviderKind::Wellknown)
    } else {
        None
    }
}

fn field_count_of(k: ProviderKind) -> (r: usize)
    ensures
        r == field_count(k),
{
    match k {
        ProviderKind::Oauth => 5,
        ProviderKind::Api => 2,
        ProviderKind::Wellknown => 2,
    }
}

fn field_name_of(k: ProviderKind, i: usize) -> (r: &'static str)
    ensures
        r@ == field_name(k, i as int),
{
    match k {
        ProviderKind::Oauth => if i == 0 {
            "refresh"
        } else if i == 1 {
            "access"
        } else if i == 2 {
            "expires"
        } else if i == 3 {
            "accountId"
        } else {
            "enterpriseUrl"
        },
        ProviderKind::Api => if i == 0 {
            "key"
        } else {
            "metadata"
        },
        ProviderKind::Wellknown => if i == 0 {
            "key"
        } else {
            "token"
        },
    }
}

fn is_field_of(k: ProviderKind, key: &str) -> (r: bool)
    ensures
        r == is_field_name(k, key@),
{
    let n = field_count_of(k);
    let mut i: usize = 0;
    while i < n
        invariant
            n == field_count(k),
            i <= n,
            forall|j: int| 0 <= j < i ==> field_name(k, j) != key@,
        decreases n - i,
    {
        if str_equal(key, field_name_of(k, i)) {
            return true;
        }
        i = i + 1;
    }
    false
}

/// Builds the entry of kind `k` from its fields' values in declaration order.
fn build_entry(
    k: ProviderKind,
    f0: Option<&Json>,
    f1: Option<&Json>,
    f2: Option<&Json>,
    f3: Option<&Json>,
    f4: Option<&Json>,
) -> (r: Option<ProviderEntry>)
    ensures
        match r {
            Some(e) => entry_of_kind(
                k,
                ref_view(f0),
                ref_view(f1),
                ref_view(f2),
                ref_view(f3),
                ref_view(f4),
            ) == Some(e@),
            None => entry_of_kind(
                k,
                ref_view(f0),
                ref_view(f1),
                ref_view(f2),
                ref_view(f3),
                ref_view(f4),
            ) is None,
        },
{
    match k {
        ProviderKind::Oauth => {
            let refresh = match take_string(f0) {
                Some(s) => s,
                None => return None,
            };
            let access = match take_string(f1) {
                Some(s) => s,
                None => return None,
            };
            let expires = match take_u64(f2) {
                Some(n) => n,
                None => return None,
            };
            let account_id = match take_opt_string(f3) {
                Some(o) => o,
                None => return None,
            };
            let enterprise_url = match take_opt_string(f4) {
                Some(o) => o,
                None => return None,
            };
            Some(
                ProviderEntry::Oauth(
                    OauthAuth {
                        refresh: SecretString(refresh),
                        access: SecretString(access),
                        expires,
                        account_id,
                        enterprise_url,
                    },
                ),
            )
        },
        ProviderKind::Api => {
            let key = match take_string(f0) {
                Some(s) => s,
                None => return None,
            };
            let metadata = take_any(f1);
            Some(ProviderEntry::Api(ApiAuth { key: SecretString(key), metadata }))
        },
        ProviderKind::Wellknown => {
            let key = match take_string(f0) {
                Some(s) => s,
                None => return None,
            };
            let token = match take_string(f1) {
                Some(s) => s,
                None => return None,
            };
            Some(
                ProviderEntry::Wellknown(
                    WellknownAuth { key: SecretString(key), token: SecretString(token) },
                ),
            )
        },
    }
}

/// Reads an entry written as an object.
fn entry_from_object(fields: &Vec<(String, Json)>) -> (r: Option<ProviderEntry>)
    ensures
        match r {
            Some(e) => entry_from_fields(json_fields_view(fields@)) == Some(e@),
            None => entry_from_fields(json_fields_view(fields@)) is None,
        },
{
    let ghost fv = json_fields_view(fields@);
    proof {
        lemma_fields_view(fields@);
    }
    let tk: &str = if find_field(fields, "type").is_some() {
        "type"
    } else {
        "kind"
    };
    assert(tk@ == tag_key(fv));
    let t = match take_string(lookup(fields, tk)) {
        Some(t) => t,
        None => return None,
    };
    let k = match kind_from_tag(t.as_str()) {
        Some(k) => k,
        None => return None,
    };
    assert(string_field(field_value(fv, tag_key(fv))) == Some(t@));
    assert(kind_of_tag(t@) == Some(k));
    let mut i: usize = 0;
    while i < fields.len()
        invariant
            i <= fields.len(),
            fv == json_fields_view(fields@),
            fv.len() == fields.len(),
            forall|j: int| 0 <= j < fields.len() ==> #[trigger] fv[j] == (fields@[j].0@, json_view(fields@[j].1)),
            tk@ == tag_key(fv),
            string_field(field_value(fv, tag_key(fv))) == Some(t@),
            kind_of_tag(t@) == Some(k),
            forall|j: int| 0 <= j < i ==> #[trigger] fv[j].0 == tk@ || is_field_name(k, fv[j].0),
        decreases fields.len() - i,
    {
        let key = fields[i].0.as_str();
        if !(str_equal(key, tk) || is_field_of(k, key)) {
            assert(!(fv[i as int].0 == tk@ || is_field_name(k, fv[i as int].0)));
            return None;
        }
        i = i + 1;
    }
    let n = field_count_of(k);
    let f0 = lookup(fields, field_name_of(k, 0));
    let f1 = lookup(fields, field_name_of(k, 1));
    let f2 = if n > 2 { lookup(fields, field_name_of(k, 2)) } else { None };
    let f3 = if n > 3 { lookup(fields, field_name_of(k, 3)) } else { None };
    let f4 = if n > 4 { lookup(fields, field_name_of(k, 4)) } else { None };
    build_entry(k, f0, f1, f2, f3, f4)
}

/// Reads an entry written as an array.
fn entry_from_array(items: &Vec<Json>) -> (r: Option<ProviderEntry>)
    ensures
        match r {
            Some(e) => entry_from_items(json_items_view(items@)) == Some(e@),
            None => entry_from_items(json_items_view(items@)) is None,
        },
{
    proof {
        lemma_items_view(items@);
    }
    let k = match take_string(item(items, 0)) {
        Some(t) => match kind_from_tag(t.as_str()) {
            Some(k) => k,
            None => return None,
        },
        None => return None,
    };
    if items.len() - 1 > field_count_of(k) {
        return None;
    }
    build_entry(k, item(items, 1), item(items, 2), item(items, 3), item(items, 4), item(items, 5))
}

/// Reads one stored credential; `None` where the value does not follow the
/// schema.
/// The expiry stored for an OAuth credential is written in the entry: the
/// `expires` field of an object, or the fourth element of an array, holding
/// a non-negative integer. An OAuth entry without it is malformed.
pub open spec fn expires_written(v: JsonValue, expires: u64) -> bool {
    ||| v matches JsonValue::Object(f) && field_value(f, "expires"@) == Some(
        JsonValue::Number(NumberView::UInt(expires)),
    )
    ||| v matches JsonValue::Array(items) && items.len() > 3 && items[3] == JsonValue::Number(
        NumberView::UInt(expires),
    )
}

/// An OAuth credential is read only from an entry that holds its expiry: an
/// entry whose `expires` is absent, or not a non-negative integer, is not
/// read as an OAuth credential.
pub proof fn lemma_oauth_needs_expires(v: JsonValue)
    ensures
        entry_from_json(v) matches Some(EntryView::Oauth(o)) ==> expires_written(v, o.expires),
        (v matches JsonValue::Object(f) && field_value(f, "expires"@) is None) ==> !(entry_from_json(
            v,
        ) matches Some(EntryView::Oauth(_))),
{
    if let Some(EntryView::Oauth(o)) = entry_from_json(v) {
        match v {
            JsonValue::Object(fields) => {
                let tk = tag_key(fields);
                let t = string_field(field_value(fields, tk))->0;
                let k = kind_of_tag(t)->0;
                assert(k == ProviderKind::Oauth);
            },
            JsonValue::Array(items) => {
                let t = string_field(item_value(items, 0))->0;
                let k = kind_of_tag(t)->0;
                assert(k == ProviderKind::Oauth);
            },
            _ => {},
        }
    }
}

pub fn parse_provider_entry(value: &Json) -> (r: Option<ProviderEntry>)
    ensures
        match r {
            Some(e) => entry_from_json(value@) == Some(e@),
            None => entry_from_json(value@) is None,
        },
        match r {
            Some(e) => match e@ {
                EntryView::Oauth(o) => expires_written(value@, o.expires),
                _ => true,
            },
            None => true,
        },
{
    let r = match value {
        Json::Object(fields) => entry_from_object(fields),
        Json::Array(items) => entry_from_array(items),
        _ => None,
    };
    proof {
        lemma_oauth_needs_expires(value@);
        if r is Some {
            if let EntryView::Oauth(o) = r->0@ {
                assert(entry_from_json(value@) == Some(EntryView::Oauth(o)));
            }
        }
    }
    r
}

// ---------------------------------------------------------------------------
// The store.
// ---------------------------------------------------------------------------

/// The credentials read from one source, by provider id, in ascending id
/// order.
#[derive(PartialEq, Eq)]
pub struct AuthStore {
    providers: Vec<(String, ProviderEntry)>,
}

pub open spec fn entry_pair_view(p: (String, ProviderEntry)) -> (Seq<char>, EntryView) {
    (p.0@, p.1@)
}

pub open spec fn pairs_view(v: Seq<(String, ProviderEntry)>) -> Seq<(Seq<char>, EntryView)> {
    v.map_values(|p: (String, ProviderEntry)| entry_pair_view(p))
}

impl View for AuthStore {
    type V = Seq<(Seq<char>, EntryView)>;

    closed spec fn view(&self) -> Seq<(Seq<char>, EntryView)> {
        pairs_view(self.providers@)
    }
}

/// No provider id occurs twice.
pub open spec fn keys_distinct(s: Seq<(Seq<char>, EntryView)>) -> bool {
    forall|i: int, j: int| 0 <= i < j < s.len() ==> s[i].0 != s[j].0
}

/// Provider ids strictly ascend in `str`'s order.
pub open spec fn keys_sorted(s: Seq<(Seq<char>, EntryView)>) -> bool {
    forall|i: int, j: int| 0 <= i < j < s.len() ==> text_lt(s[i].0, s[j].0)
}

impl AuthStore {
    #[verifier::type_invariant]
    spec fn ids_ascend(self) -> bool {
        keys_sorted(pairs_view(self.providers@))
    }
}

/// `p` is where `k` goes among the ids of `s`: after every smaller id and
/// before every greater one.
pub open spec fn is_insert_pos(s: Seq<(Seq<char>, EntryView)>, k: Seq<char>, p: int) -> bool {
    &&& 0 <= p <= s.len()
    &&& forall|i: int| 0 <= i < p ==> text_lt(#[trigger] s[i].0, k)
    &&& forall|i: int| p <= i < s.len() ==> text_lt(k, #[trigger] s[i].0)
}

/// The store after recording `e` under `k`: an entry already stored under
/// `k` is replaced in place, otherwise `e` is added at its place in id
/// order.
pub open spec fn store_insert(s: Seq<(Seq<char>, EntryView)>, k: Seq<char>, e: EntryView) -> Seq<(Seq<char>, EntryView)> {
    if exists|i: int| 0 <= i < s.len() && s[i].0 == k {
        s.update(choose|i: int| 0 <= i < s.len() && s[i].0 == k, (k, e))
    } else {
        s.insert(choose|p: int| is_insert_pos(s, k, p), (k, e))
    }
}

pub proof fn lemma_sorted_distinct(s: Seq<(Seq<char>, EntryView)>)
    requires
        keys_sorted(s),
    ensures
        keys_distinct(s),
{
    assert forall|i: int, j: int| 0 <= i < j < s.len() implies s[i].0 != s[j].0 by {
        lemma_text_lt_irreflexive(s[i].0);
    }
}

proof fn lemma_insert_pos_unique(s: Seq<(Seq<char>, EntryView)>, k: Seq<char>, p: int, q: int)
    requires
        is_insert_pos(s, k, p),
        is_insert_pos(s, k, q),
    ensures
        p == q,
{
    if p < q {
        lemma_text_lt_transitive(k, s[p].0, k);
        lemma_text_lt_irreflexive(k);
    } else if q < p {
        lemma_text_lt_transitive(k, s[q].0, k);
        lemma_text_lt_irreflexive(k);
    }
}

proof fn lemma_insert_pos_exists(s: Seq<(Seq<char>, EntryView)>, k: Seq<char>)
    requires
        keys_sorted(s),
        forall|i: int| 0 <= i < s.len() ==> s[i].0 != k,
    ensures
        exists|p: int| is_insert_pos(s, k, p),
    decreases s.len(),
{
    if s.len() == 0 {
        assert(is_insert_pos(s, k, 0));
    } else {
        let d = s.drop_last();
        let n = s.len() - 1;
        assert forall|i: int| 0 <= i < d.len() implies d[i].0 != k by {
            assert(d[i] == s[i]);
        }
        lemma_insert_pos_exists(d, k);
        let p = choose|p: int| is_insert_pos(d, k, p);
        lemma_text_lt_total(s[n].0, k);
        if text_lt(s[n].0, k) {
            assert forall|i: int| 0 <= i < s.len() implies text_lt(#[trigger] s[i].0, k) by {
                if i < n {
                    lemma_text_lt_transitive(s[i].0, s[n].0, k);
                }
            }
            assert(is_insert_pos(s, k, s.len() as int));
        } else {
            assert forall|i: int| 0 <= i < p implies text_lt(#[trigger] s[i].0, k) by {
                assert(d[i] == s[i]);
            }
            assert forall|i: int| p <= i < s.len() implies text_lt(k, #[trigger] s[i].0) by {
                if i < n {
                    assert(d[i] == s[i]);
                }
            }
            assert(is_insert_pos(s, k, p));
        }
    }
}

/// Recording an entry keeps the ids strictly ascending, and adds at most one
/// entry.
pub proof fn lemma_store_insert_sorted(s: Seq<(Seq<char>, EntryView)>, k: Seq<char>, e: EntryView)
    requires
        keys_sorted(s),
    ensures
        keys_sorted(store_insert(s, k, e)),
        store_insert(s, k, e).len() == s.len() || store_insert(s, k, e).len() == s.len() + 1,
{
    if exists|i: int| 0 <= i < s.len() && s[i].0 == k {
        let c = choose|i: int| 0 <= i < s.len() && s[i].0 == k;
        let t = s.update(c, (k, e));
        assert forall|i: int, j: int| 0 <= i < j < t.len() implies text_lt(t[i].0, t[j].0) by {
            assert(t[i].0 == s[i].0);
            assert(t[j].0 == s[j].0);
        }
    } else {
        lemma_insert_pos_exists(s, k);
        let p = choose|p: int| is_insert_pos(s, k, p);
        let t = s.insert(p, (k, e));
        assert forall|i: int, j: int| 0 <= i < j < t.len() implies text_lt(t[i].0, t[j].0) by {
            if j < p {
                assert(t[i] == s[i] && t[j] == s[j]);
            } else if j == p {
                assert(t[i] == s[i]);
            } else if i < p {
                assert(t[i] == s[i] && t[j] == s[j - 1]);
                lemma_text_lt_transitive(s[i].0, k, s[j - 1].0);
            } else if i == p {
                assert(t[j] == s[j - 1]);
            } else {
                assert(t[i] == s[i - 1] && t[j] == s[j - 1]);
            }
        }
    }
}

/// The store and the count of malformed entries that reading `entries` in
/// order gives: each entry that follows the schema is recorded under its
/// id, each other one is counted.
pub open spec fn collect_entries(entries: Seq<(Seq<char>, JsonValue)>) -> (Seq<(Seq<char>, EntryView)>, nat)
    decreases entries.len(),
{
    if entries.len() == 0 {
        (Seq::empty(), 0)
    } else {
        let (s, bad) = collect_entries(entries.drop_last());
        let (k, v) = entries.last();
        match entry_from_json(v) {
            Some(e) => (store_insert(s, k, e), bad),
            None => (s, bad + 1),
        }
    }
}

/// Why a credential document was refused as a whole.
#[derive(Clone, Copy, Debug, PartialEq, Eq, Structural)]
pub enum AuthError {
    /// The text is not JSON.
    InvalidJson,
    /// The document is not a JSON object.
    NotAnObject,
    /// The document has a `providers` field that is not an object.
    ProvidersNotAnObject,
}

impl AuthError {
    pub open spec fn text(self) -> Seq<char> {
        match self {
            AuthError::InvalidJson => "parse OpenCode auth JSON"@,
            AuthError::NotAnObject => "OpenCode auth JSON must be an object"@,
            AuthError::ProvidersNotAnObject => "legacy UFO wrapper `providers` must be an object"@,
        }
    }

    /// The message shown for the error.
    pub fn message(&self) -> (r: String)
        ensures
            r@ == self.text(),
    {
        match self {
            AuthError::InvalidJson => String::from_str("parse OpenCode auth JSON"),
            AuthError::NotAnObject => String::from_str("OpenCode auth JSON must be an object"),
            AuthError::ProvidersNotAnObject => String::from_str(
                "legacy UFO wrapper `providers` must be an object",
            ),
        }
    }
}

/// The entries of a document that hold credentials: those of its
/// `providers` object where that is its only field, else its own fields.
pub open spec fn provider_entries(root: JsonValue) -> Seq<(Seq<char>, JsonValue)> {
    match root {
        JsonValue::Object(fields) => match field_value(fields, "providers"@) {
            Some(JsonValue::Object(inner)) => if fields.len() == 1 {
                inner
            } else {
                fields
            },
            _ => fields,
        },
        _ => Seq::empty(),
    }
}

/// The store and malformed count of a document. A document whose only field
/// is a `providers` object is read as that object; a `providers` field that
/// is not an object refuses the document.
pub open spec fn provider_map(root: JsonValue) -> Result<(Seq<(Seq<char>, EntryView)>, nat), AuthError> {
    match root {
        JsonValue::Object(fields) => match field_value(fields, "providers"@) {
            Some(JsonValue::Object(_)) => Ok(collect_entries(provider_entries(root))),
            Some(_) => Err(AuthError::ProvidersNotAnObject),
            None => Ok(collect_entries(provider_entries(root))),
        },
        _ => Err(AuthError::NotAnObject),
    }
}

/// In a document whose objects all have ascending keys, the credential
/// entries have ascending ids.
pub proof fn lemma_provider_entries_ascending(root: JsonValue)
    requires
        objects_sorted(root),
    ensures
        keys_ascending(provider_entries(root)),
{
    if let JsonValue::Object(fields) = root {
        lemma_field_value_member(fields, "providers"@);
        if let Some(JsonValue::Object(inner)) = field_value(fields, "providers"@) {
            let i = choose|i: int| 0 <= i < fields.len() && #[trigger] fields[i].1 == JsonValue::Object(inner);
            assert(objects_sorted(fields[i].1));
        }
    }
}

/// The store that reading entries gives has strictly ascending ids, and
/// holds at most one entry for each entry read.
pub proof fn lemma_collect_entries(entries: Seq<(Seq<char>, JsonValue)>)
    ensures
        keys_sorted(collect_entries(entries).0),
        keys_distinct(collect_entries(entries).0),
        collect_entries(entries).0.len() + collect_entries(entries).1 <= entries.len(),
    decreases entries.len(),
{
    if entries.len() > 0 {
        lemma_collect_entries(entries.drop_last());
        let (s, bad) = collect_entries(entries.drop_last());
        let (k, v) = entries.last();
        if let Some(e) = entry_from_json(v) {
            lemma_store_insert_sorted(s, k, e);
        }
    }
    lemma_sorted_distinct(collect_entries(entries).0);
}

/// The well-formed entries, in order, each under its id.
pub open spec fn well_formed_entries(entries: Seq<(Seq<char>, JsonValue)>) -> Seq<(Seq<char>, EntryView)>
    decreases entries.len(),
{
    if entries.len() == 0 {
        Seq::empty()
    } else {
        let prev = well_formed_entries(entries.drop_last());
        match entry_from_json(entries.last().1) {
            Some(e) => prev.push((entries.last().0, e)),
            None => prev,
        }
    }
}

/// The number of malformed entries.
pub open spec fn malformed_count(entries: Seq<(Seq<char>, JsonValue)>) -> nat
    decreases entries.len(),
{
    if entries.len() == 0 {
        0
    } else {
        malformed_count(entries.drop_last()) + if entry_from_json(entries.last().1) is Some {
            0nat
        } else {
            1nat
        }
    }
}

proof fn lemma_well_formed_ids(entries: Seq<(Seq<char>, JsonValue)>)
    ensures
        forall|j: int|
            0 <= j < well_formed_entries(entries).len() ==> exists|i: int|
                0 <= i < entries.len() && #[trigger] well_formed_entries(entries)[j].0
                    == entries[i].0,
    decreases entries.len(),
{
    if entries.len() > 0 {
        let d = entries.drop_last();
        lemma_well_formed_ids(d);
        let w = well_formed_entries(entries);
        assert forall|j: int| 0 <= j < w.len() implies exists|i: int|
            0 <= i < entries.len() && #[trigger] w[j].0 == entries[i].0 by {
            if j < well_formed_entries(d).len() {
                let i = choose|i: int| 0 <= i < d.len() && well_formed_entries(d)[j].0 == d[i].0;
                assert(entries[i] == d[i]);
            } else {
                assert(w[j].0 == entries[entries.len() - 1].0);
            }
        }
    }
}

/// Malformed entries are isolated: where the ids of a document ascend (as
/// those of every object `serde_json` reads), the store holds exactly the
/// well-formed entries in order, and every other entry is counted as
/// malformed.
pub proof fn lemma_malformed_entries_isolated(entries: Seq<(Seq<char>, JsonValue)>)
    requires
        keys_ascending(entries),
    ensures
        collect_entries(entries) == (well_formed_entries(entries), malformed_count(entries)),
        well_formed_entries(entries).len() + malformed_count(entries) == entries.len(),
    decreases entries.len(),
{
    if entries.len() > 0 {
        let d = entries.drop_last();
        let n = entries.len() - 1;
        assert(keys_ascending(d)) by {
            assert forall|i: int, j: int| 0 <= i < j < d.len() implies text_lt(d[i].0, d[j].0) by {
                assert(d[i] == entries[i] && d[j] == entries[j]);
            }
        }
        lemma_malformed_entries_isolated(d);
        lemma_well_formed_ids(d);
        let w = well_formed_entries(d);
        let k = entries.last().0;
        if let Some(e) = entry_from_json(entries.last().1) {
            assert forall|i: int| 0 <= i < w.len() implies text_lt(#[trigger] w[i].0, k) by {
                let m = choose|m: int| 0 <= m < d.len() && #[trigger] w[i].0 == d[m].0;
                assert(d[m] == entries[m]);
            }
            assert(!(exists|i: int| 0 <= i < w.len() && w[i].0 == k)) by {
                if exists|i: int| 0 <= i < w.len() && w[i].0 == k {
                    let i = choose|i: int| 0 <= i < w.len() && w[i].0 == k;
                    lemma_text_lt_irreflexive(k);
                }
            }
            assert(is_insert_pos(w, k, w.len() as int));
            let p = choose|p: int| is_insert_pos(w, k, p);
            lemma_insert_pos_unique(w, k, p, w.len() as int);
            assert(w.insert(w.len() as int, (k, e)) =~= w.push((k, e)));
        }
    }
}

impl AuthStore {
    /// Whether the store holds no credential.
    pub fn is_empty(&self) -> (r: bool)
        ensures
            r == (self@.len() == 0),
    {
        self.providers.len() == 0
    }

    /// The number of credentials.
    pub fn len(&self) -> (r: usize)
        ensures
            r == self@.len(),
    {
        self.providers.len()
    }

}

/// Records `entry` under `id` in a list kept in ascending id order,
/// replacing an entry already stored there.
fn insert_sorted(v: &mut Vec<(String, ProviderEntry)>, id: String, entry: ProviderEntry)
    requires
        keys_sorted(pairs_view(old(v)@)),
    ensures
        pairs_view(final(v)@) == store_insert(pairs_view(old(v)@), id@, entry@),
        keys_sorted(pairs_view(final(v)@)),
{
    let ghost s = pairs_view(v@);
    proof {
        lemma_store_insert_sorted(s, id@, entry@);
        lemma_sorted_distinct(s);
    }
    let mut j: usize = 0;
    while j < v.len() && str_less(v[j].0.as_str(), id.as_str())
        invariant
            j <= v.len(),
            s == pairs_view(v@),
            s.len() == v.len(),
            keys_sorted(s),
            forall|m: int| 0 <= m < j ==> text_lt(#[trigger] s[m].0, id@),
        decreases v.len() - j,
    {
        assert(s[j as int].0 == v@[j as int].0@);
        j = j + 1;
    }
    if j < v.len() && v[j].0 == id {
        proof {
            assert(s[j as int].0 == id@);
            let c = choose|i: int| 0 <= i < s.len() && s[i].0 == id@;
            assert(c == j as int);
        }
        v.set(j, (id, entry));
        assert(pairs_view(v@) =~= s.update(j as int, (id@, entry@)));
    } else {
        proof {
            if j < s.len() {
                assert(s[j as int].0 == v@[j as int].0@);
                assert(s[j as int].0 != id@);
                lemma_text_lt_total(s[j as int].0, id@);
                assert forall|m: int| j <= m < s.len() implies text_lt(id@, #[trigger] s[m].0) by {
                    if m > j {
                        lemma_text_lt_transitive(id@, s[j as int].0, s[m].0);
                    }
                }
            }
            assert(is_insert_pos(s, id@, j as int));
            assert(!(exists|i: int| 0 <= i < s.len() && s[i].0 == id@)) by {
                if exists|i: int| 0 <= i < s.len() && s[i].0 == id@ {
                    let i = choose|i: int| 0 <= i < s.len() && s[i].0 == id@;
                    lemma_text_lt_irreflexive(id@);
                    assert(text_lt(s[i].0, id@) || text_lt(id@, s[i].0));
                }
            }
            let p = choose|p: int| is_insert_pos(s, id@, p);
            lemma_insert_pos_unique(s, id@, p, j as int);
        }
        v.insert(j, (id, entry));
        assert(pairs_view(v@) =~= s.insert(j as int, (id@, entry@)));
    }
}

fn copy_secret(s: &SecretString) -> (r: SecretString)
    ensures
        r@ == s@,
{
    SecretString(s.0.clone())
}

fn copy_entry(e: &ProviderEntry) -> (r: ProviderEntry)
    ensures
        r@ == e@,
{
    match e {
        ProviderEntry::Oauth(a) => ProviderEntry::Oauth(
            OauthAuth {
                refresh: copy_secret(&a.refresh),
                access: copy_secret(&a.access),
                expires: a.expires,
                account_id: clone_opt_string(&a.account_id),
                enterprise_url: clone_opt_string(&a.enterprise_url),
            },
        ),
        ProviderEntry::Api(a) => ProviderEntry::Api(
            ApiAuth {
                key: copy_secret(&a.key),
                metadata: match &a.metadata {
                    Some(j) => Some(clone_json(j)),
                    None => None,
                },
            },
        ),
        ProviderEntry::Wellknown(a) => ProviderEntry::Wellknown(
            WellknownAuth { key: copy_secret(&a.key), token: copy_secret(&a.token) },
        ),
    }
}

impl Clone for AuthStore {
    fn clone(&self) -> (r: Self)
        ensures
            r@ == self@,
    {
        proof {
            use_type_invariant(self);
        }
        let mut list: Vec<(String, ProviderEntry)> = Vec::new();
        let mut i: usize = 0;
        while i < self.providers.len()
            invariant
                i <= self.providers.len(),
                self@.len() == self.providers.len(),
                keys_sorted(self@),
                pairs_view(list@) == self@.take(i as int),
            decreases self.providers.len() - i,
        {
            let (id, entry) = &self.providers[i];
            let key = id.clone();
            let value = copy_entry(entry);
            assert(self@[i as int] == (key@, value@));
            let ghost before = list@;
            list.push((key, value));
            assert(pairs_view(list@) =~= pairs_view(before).push((key@, value@)));
            assert(self@.take(i + 1) =~= self@.take(i as int).push(self@[i as int]));
            i = i + 1;
        }
        assert(self@.take(self@.len() as int) =~= self@);
        AuthStore { providers: list }
    }
}

impl Default for AuthStore {
    fn default() -> (r: Self)
        ensures
            r@ == Seq::<(Seq<char>, EntryView)>::empty(),
    {
        let r = AuthStore { providers: Vec::new() };
        assert(r@ == Seq::<(Seq<char>, EntryView)>::empty());
        r
    }
}

/// Reads the entries of an object in order into a store, counting those
/// that do not follow the schema.
fn collect_providers(entries: &Vec<(String, Json)>) -> (r: (AuthStore, usize))
    ensures
        (r.0@, r.1 as nat) == collect_entries(json_fields_view(entries@)),
        keys_sorted(r.0@),
{
    let ghost ev = json_fields_view(entries@);
    proof {
        lemma_fields_view(entries@);
    }
    let mut list: Vec<(String, ProviderEntry)> = Vec::new();
    let mut bad: usize = 0;
    let mut i: usize = 0;
    proof {
        assert(ev.take(0) == Seq::<(Seq<char>, JsonValue)>::empty());
        assert(pairs_view(list@) == Seq::<(Seq<char>, EntryView)>::empty());
    }
    while i < entries.len()
        invariant
            i <= entries.len(),
            ev == json_fields_view(entries@),
            ev.len() == entries.len(),
            forall|j: int| 0 <= j < entries.len() ==> #[trigger] ev[j] == (entries@[j].0@, json_view(entries@[j].1)),
            (pairs_view(list@), bad as nat) == collect_entries(ev.take(i as int)),
            keys_sorted(pairs_view(list@)),
            bad <= i,
        decreases entries.len() - i,
    {
        proof {
            assert(ev.take(i + 1).drop_last() == ev.take(i as int));
            assert(ev.take(i + 1).last() == ev[i as int]);
        }
        match parse_provider_entry(&entries[i].1) {
            Some(e) => {
                insert_sorted(&mut list, entries[i].0.clone(), e);
            },
            None => {
                bad = bad + 1;
            },
        }
        i = i + 1;
    }
    proof {
        assert(ev.take(entries.len() as int) == ev);
    }
    (AuthStore { providers: list }, bad)
}

/// Reads a credential document: the store of its well-formed entries and
/// the count of malformed ones, or the reason the whole document is refused.
pub fn parse_provider_map(value: &Json) -> (r: Result<(AuthStore, usize), AuthError>)
    ensures
        match r {
            Ok((store, bad)) => {
                &&& provider_map(value@) == Ok::<_, AuthError>((store@, bad as nat))
                &&& keys_sorted(store@)
            },
            Err(e) => provider_map(value@) == Err::<(Seq<(Seq<char>, EntryView)>, nat), _>(e),
        },
{
    match value {
        Json::Object(fields) => {
            proof {
                lemma_fields_view(fields@);
            }
            match lookup(fields, "providers") {
                Some(Json::Object(inner)) => {
                    if fields.len() == 1 {
                        Ok(collect_providers(inner))
                    } else {
                        Ok(collect_providers(fields))
                    }
                },
                Some(_) => Err(AuthError::ProvidersNotAnObject),
                None => Ok(collect_providers(fields)),
            }
        },
        _ => Err(AuthError::NotAnObject),
    }
}

/// A credential store together with where it was read from.
#[derive(Clone, PartialEq, Eq)]
pub struct AuthSnapshot {
    pub source: AuthSource,
    pub resolved_path: Option<PathBuf>,
    pub malformed_entries: usize,
    pub store: AuthStore,
}

/// Parses a credential document read from `source` (at `resolved_path`,
/// where it is a file).
pub fn parse_auth_content(content: &str, source: AuthSource, resolved_path: Option<PathBuf>) -> (r: Result<AuthSnapshot, AuthError>)
    ensures
        match r {
            Ok(snap) => {
                &&& json_document(content@) is Some
                &&& provider_map(json_document(content@)->0) == Ok::<_, AuthError>(
                    (snap.store@, snap.malformed_entries as nat),
                )
                &&& snap.source == source
                &&& snap.resolved_path == resolved_path
                &&& keys_sorted(snap.store@)
                &&& snap.store@ == well_formed_entries(provider_entries(json_document(content@)->0))
                &&& snap.malformed_entries == malformed_count(
                    provider_entries(json_document(content@)->0),
                )
                &&& snap.store@.len() + snap.malformed_entries == provider_entries(
                    json_document(content@)->0,
                ).len()
            },
            Err(e) => match json_document(content@) {
                None => e == AuthError::InvalidJson,
                Some(root) => provider_map(root) == Err::<(Seq<(Seq<char>, EntryView)>, nat), _>(e),
            },
        },
{
    let value = match parse_json_document(content) {
        Ok(v) => v,
        Err(_) => return Err(AuthError::InvalidJson),
    };
    proof {
        lemma_provider_entries_ascending(value@);
        lemma_malformed_entries_isolated(provider_entries(value@));
    }
    match parse_provider_map(&value) {
        Ok((store, malformed_entries)) => Ok(AuthSnapshot { source, resolved_path, malformed_entries, store }),
        Err(e) => Err(e),
    }
}

// ---------------------------------------------------------------------------
// Text forms of the enums.
// ---------------------------------------------------------------------------

impl AuthSource {
    pub open spec fn label(self) -> Seq<char> {
        match self {
            AuthSource::Env => "env"@,
            AuthSource::File => "file"@,
            AuthSource::Missing => "missing"@,
        }
    }

    /// The label shown for the source.
    pub fn to_string(&self) -> (r: String)
        ensures
            r@ == self.label(),
    {
        match self {
            AuthSource::Env => String::from_str("env"),
            AuthSource::File => String::from_str("file"),
            AuthSource::Missing => String::from_str("missing"),
        }
    }
}

impl ProviderKind {
    pub open spec fn label(self) -> Seq<char> {
        match self {
            ProviderKind::Oauth => "oauth"@,
            ProviderKind::Api => "api"@,
            ProviderKind::Wellknown => "wellknown"@,
        }
    }

    /// The label shown for the kind.
    pub fn to_string(&self) -> (r: String)
        ensures
            r@ == self.label(),
    {
        match self {
            ProviderKind::Oauth => String::from_str("oauth"),
            ProviderKind::Api => String::from_str("api"),
            ProviderKind::Wellknown => String::from_str("wellknown"),
        }
    }
}

impl ProviderPolicy {
    pub open spec fn label(self) -> Seq<char> {
        match self {
            ProviderPolicy::Usable => "usable"@,
            ProviderPolicy::UnsupportedCredential => "unsupported"@,
            ProviderPolicy::LocalModelConfig => "local-model"@,
        }
    }

    /// The label shown for the policy.
    pub fn to_string(&self) -> (r: String)
        ensures
            r@ == self.label(),
    {
        match self {
            ProviderPolicy::Usable => String::from_str("usable"),
            ProviderPolicy::UnsupportedCredential => String::from_str("unsupported"),
            ProviderPolicy::LocalModelConfig => String::from_str("local-model"),
        }
    }
}

impl ExpiryState {
    pub open spec fn label(self) -> Seq<char> {
        match self {
            ExpiryState::Valid => "valid"@,
            ExpiryState::Expired => "expired"@,
        }
    }

    /// The label shown for the state.
    pub fn to_string(&self) -> (r: String)
        ensures
            r@ == self.label(),
    {
        match self {
            ExpiryState::Valid => String::from_str("valid"),
            ExpiryState::Expired => String::from_str("expired"),
        }
    }
}

// ---------------------------------------------------------------------------
// Summaries.
// ---------------------------------------------------------------------------

/// What is shown of an OAuth credential.
#[derive(Clone, Debug, PartialEq, Eq)]
pub struct OauthSummary {
    pub expiry_state: ExpiryState,
    pub account_id: Option<String>,
    pub enterprise_url: Option<String>,
}

/// What is shown of one credential: never its secrets.
#[derive(Clone, Debug, PartialEq, Eq)]
pub struct ProviderSummary {
    pub provider_id: String,
    pub kind: ProviderKind,
    pub source: AuthSource,
    pub policy: ProviderPolicy,
    pub oauth: Option<OauthSummary>,
    pub metadata_present: bool,
}

pub struct OauthSummaryView {
    pub expiry_state: ExpiryState,
    pub account_id: Option<Seq<char>>,
    pub enterprise_url: Option<Seq<char>>,
}

pub struct SummaryView {
    pub provider_id: Seq<char>,
    pub kind: ProviderKind,
    pub source: AuthSource,
    pub policy: ProviderPolicy,
    pub oauth: Option<OauthSummaryView>,
    pub metadata_present: bool,
}

impl View for OauthSummary {
    type V = OauthSummaryView;

    open spec fn view(&self) -> OauthSummaryView {
        OauthSummaryView {
            expiry_state: self.expiry_state,
            account_id: opt_string_view(self.account_id),
            enterprise_url: opt_string_view(self.enterprise_url),
        }
    }
}

impl View for ProviderSummary {
    type V = SummaryView;

    open spec fn view(&self) -> SummaryView {
        SummaryView {
            provider_id: self.provider_id@,
            kind: self.kind,
            source: self.source,
            policy: self.policy,
            oauth: match self.oauth {
                Some(o) => Some(o@),
                None => None,
            },
            metadata_present: self.metadata_present,
        }
    }
}

pub open spec fn kind_of(e: EntryView) -> ProviderKind {
    match e {
        EntryView::Oauth(_) => ProviderKind::Oauth,
        EntryView::Api(_) => ProviderKind::Api,
        EntryView::Wellknown(_) => ProviderKind::Wellknown,
    }
}

/// Only OAuth credentials are usable by the rover.
pub open spec fn policy_of(e: EntryView) -> ProviderPolicy {
    match e {
        EntryView::Oauth(_) => ProviderPolicy::Usable,
        _ => ProviderPolicy::UnsupportedCredential,
    }
}

/// The summary of the credential `e` stored under `id`, read from `source`
/// at time `now` (seconds since the Unix epoch): the id is sanitised, an
/// OAuth token is valid while its expiry is not before `now`.
pub open spec fn summary_of(id: Seq<char>, e: EntryView, source: AuthSource, now: u64) -> SummaryView {
    SummaryView {
        provider_id: sanitized(id),
        kind: kind_of(e),
        source,
        policy: policy_of(e),
        oauth: match e {
            EntryView::Oauth(a) => Some(
                OauthSummaryView {
                    expiry_state: if a.expires >= now {
                        ExpiryState::Valid
                    } else {
                        ExpiryState::Expired
                    },
                    account_id: a.account_id,
                    enterprise_url: a.enterprise_url,
                },
            ),
            _ => None,
        },
        metadata_present: match e {
            EntryView::Api(a) => a.metadata is Some,
            _ => false,
        },
    }
}

/// Every summary reports the source it was asked for, whatever the kind of
/// credential, and the credential's id with terminal controls removed.
pub proof fn lemma_summary_reports_source(id: Seq<char>, e: EntryView, source: AuthSource, now: u64)
    ensures
        summary_of(id, e, source, now).source == source,
        summary_of(id, e, source, now).provider_id == sanitized(id),
{
}

/// A summary never shows a secret: it is the summary of the same credential
/// with every secret emptied.
pub proof fn lemma_summary_hides_secrets(id: Seq<char>, e: EntryView, source: AuthSource, now: u64)
    ensures
        summary_of(id, e, source, now) == summary_of(id, redact(e), source, now),
{
}

fn clone_opt_string(o: &Option<String>) -> (r: Option<String>)
    ensures
        opt_string_view(r) == opt_string_view(*o),
{
    match o {
        Some(s) => Some(s.clone()),
        None => None,
    }
}

#[verifier::external_type_specification]
#[verifier::external_body]
pub struct ExSystemTime(std::time::SystemTime);

/// Reads the system clock (`SystemTime::now`). Nothing is stated of the
/// value: it is the time.
#[verifier::external_body]
fn system_now() -> std::time::SystemTime {
    std::time::SystemTime::now()
}

/// The time from the Unix epoch to `t` (`SystemTime::duration_since` with
/// `UNIX_EPOCH`); `None` where `t` is before the epoch. Nothing is stated of
/// the value.
#[verifier::external_body]
fn time_since_epoch(t: std::time::SystemTime) -> Option<std::time::Duration> {
    t.duration_since(std::time::UNIX_EPOCH).ok()
}

/// The whole seconds of a duration (`Duration::as_secs`). Nothing is stated
/// of the value: the duration is opaque here.
#[verifier::external_body]
fn whole_seconds(d: std::time::Duration) -> u64 {
    d.as_secs()
}

/// The current time in seconds since the Unix epoch, or 0 where the clock
/// is before the epoch.
pub fn current_unix_secs() -> u64 {
    match time_since_epoch(system_now()) {
        Some(d) => whole_seconds(d),
        None => 0,
    }
}

impl ProviderEntry {
    /// Only OAuth credentials are usable.
    pub fn policy(&self) -> (r: ProviderPolicy)
        ensures
            r == policy_of(self@),
    {
        match self {
            ProviderEntry::Oauth(_) => ProviderPolicy::Usable,
            ProviderEntry::Api(_) | ProviderEntry::Wellknown(_) => ProviderPolicy::UnsupportedCredential,
        }
    }

    /// The summary of this credential at time `now`.
    pub fn summary_at(&self, provider_id: &str, source: AuthSource, now: u64) -> (r: ProviderSummary)
        ensures
            r@ == summary_of(provider_id@, self@, source, now),
            r.source == source,
            r@.provider_id == sanitized(provider_id@),
    {
        let provider_id = sanitize_terminal(provider_id);
        match self {
            ProviderEntry::Oauth(auth) => ProviderSummary {
                provider_id,
                kind: ProviderKind::Oauth,
                source,
                policy: ProviderPolicy::Usable,
                oauth: Some(
                    OauthSummary {
                        expiry_state: if auth.expires >= now {
                            ExpiryState::Valid
                        } else {
                            ExpiryState::Expired
                        },
                        account_id: clone_opt_string(&auth.account_id),
                        enterprise_url: clone_opt_string(&auth.enterprise_url),
                    },
                ),
                metadata_present: false,
            },
            ProviderEntry::Api(auth) => ProviderSummary {
                provider_id,
                kind: ProviderKind::Api,
                source,
                policy: ProviderPolicy::UnsupportedCredential,
                oauth: None,
                metadata_present: auth.metadata.is_some(),
            },
            ProviderEntry::Wellknown(_) => ProviderSummary {
                provider_id,
                kind: ProviderKind::Wellknown,
                source,
                policy: ProviderPolicy::UnsupportedCredential,
                oauth: None,
                metadata_present: false,
            },
        }
    }

    /// The summary of this credential at the current time.
    pub fn summary(&self, provider_id: &str, source: AuthSource) -> (r: ProviderSummary)
        ensures
            exists|now: u64| r@ == summary_of(provider_id@, self@, source, now),
            r.source == source,
    {
        let now = current_unix_secs();
        self.summary_at(provider_id, source, now)
    }
}

/// A text shown where a value is absent: the value, else `-`.
pub open spec fn or_dash(o: Option<Seq<char>>) -> Seq<char> {
    match o {
        Some(t) => t,
        None => "-"@,
    }
}

/// The line that lists one credential: its id, kind, source, policy and
/// whether metadata is present, then, for OAuth, the token's state, the
/// account and the enterprise URL.
pub open spec fn summary_line(v: SummaryView) -> Seq<char> {
    v.provider_id + "  ("@ + v.kind.label() + " source="@ + v.source.label() + " policy="@
        + v.policy.label() + " metadata="@ + (if v.metadata_present {
        "present"@
    } else {
        "-"@
    }) + ")"@ + match v.oauth {
        Some(o) => " expires="@ + o.expiry_state.label() + " account="@ + or_dash(o.account_id)
            + " enterprise="@ + or_dash(o.enterprise_url),
        None => Seq::empty(),
    }
}

fn append_or_dash(out: &mut String, o: &Option<String>)
    ensures
        final(out)@ == old(out)@ + or_dash(opt_string_view(*o)),
{
    match o {
        Some(t) => out.append(t.as_str()),
        None => out.append("-"),
    }
}

impl ProviderSummary {
    /// The line that lists the credential.
    pub fn line(&self) -> (r: String)
        ensures
            r@ == summary_line(self@),
    {
        let mut out = self.provider_id.clone();
        out.append("  (");
        let kind = self.kind.to_string();
        out.append(kind.as_str());
        out.append(" source=");
        let source = self.source.to_string();
        out.append(source.as_str());
        out.append(" policy=");
        let policy = self.policy.to_string();
        out.append(policy.as_str());
        out.append(" metadata=");
        if self.metadata_present {
            out.append("present");
        } else {
            out.append("-");
        }
        out.append(")");
        match &self.oauth {
            Some(o) => {
                out.append(" expires=");
                let state = o.expiry_state.to_string();
                out.append(state.as_str());
                out.append(" account=");
                append_or_dash(&mut out, &o.account_id);
                out.append(" enterprise=");
                append_or_dash(&mut out, &o.enterprise_url);
            },
            None => {},
        }
        assert(out@ =~= summary_line(self@));
        out
    }
}

/// The number of usable credentials among `s`.
pub open spec fn usable_count_of(s: Seq<(Seq<char>, EntryView)>) -> nat
    decreases s.len(),
{
    if s.len() == 0 {
        0
    } else {
        usable_count_of(s.drop_last()) + if policy_of(s.last().1) == ProviderPolicy::Usable {
            1nat
        } else {
            0nat
        }
    }
}

pub proof fn lemma_usable_count_bound(s: Seq<(Seq<char>, EntryView)>)
    ensures
        usable_count_of(s) <= s.len(),
    decreases s.len(),
{
    if s.len() > 0 {
        lemma_usable_count_bound(s.drop_last());
    }
}

/// `r` holds, in store order, the summary of each credential of `store` at
/// time `now`.
pub open spec fn summaries_of(
    r: Seq<ProviderSummary>,
    store: Seq<(Seq<char>, EntryView)>,
    source: AuthSource,
    now: u64,
) -> bool {
    &&& r.len() == store.len()
    &&& forall|i: int|
        0 <= i < r.len() ==> #[trigger] r[i]@ == summary_of(store[i].0, store[i].1, source, now)
}

impl AuthStore {
    /// The summaries of all credentials, in ascending provider-id order, at
    /// time `now`.
    pub fn summaries_at(&self, source: AuthSource, now: u64) -> (r: Vec<ProviderSummary>)
        ensures
            summaries_of(r@, self@, source, now),
            keys_sorted(self@),
            forall|i: int| 0 <= i < r@.len() ==> #[trigger] r@[i].source == source,
    {
        proof {
            use_type_invariant(self);
        }
        let mut out: Vec<ProviderSummary> = Vec::new();
        let mut i: usize = 0;
        while i < self.providers.len()
            invariant
                i <= self.providers.len(),
                self@.len() == self.providers.len(),
                out@.len() == i,
                forall|j: int|
                    0 <= j < i ==> #[trigger] out@[j]@ == summary_of(self@[j].0, self@[j].1, source, now),
            decreases self.providers.len() - i,
        {
            let (id, entry) = &self.providers[i];
            out.push(entry.summary_at(id.as_str(), source, now));
            i = i + 1;
        }
        assert forall|i: int| 0 <= i < out@.len() implies #[trigger] out@[i].source == source by {
            assert(out@[i]@ == summary_of(self@[i].0, self@[i].1, source, now));
        }
        out
    }

    /// The summaries of all credentials, in ascending provider-id order, at
    /// one reading of the clock.
    pub fn summaries(&self, source: AuthSource) -> (r: Vec<ProviderSummary>)
        ensures
            exists|now: u64| #[trigger] summaries_of(r@, self@, source, now),
            keys_sorted(self@),
            forall|i: int| 0 <= i < r@.len() ==> #[trigger] r@[i].source == source,
    {
        let now = current_unix_secs();
        self.summaries_at(source, now)
    }

    /// The number of usable credentials.
    pub fn usable_count(&self) -> (r: usize)
        ensures
            r == usable_count_of(self@),
    {
        let mut count: usize = 0;
        let mut i: usize = 0;
        proof {
            assert(self@.take(0) == Seq::<(Seq<char>, EntryView)>::empty());
        }
        while i < self.providers.len()
            invariant
                i <= self.providers.len(),
                self@.len() == self.providers.len(),
                count == usable_count_of(self@.take(i as int)),
            decreases self.providers.len() - i,
        {
            proof {
                assert(self@.take(i + 1).drop_last() == self@.take(i as int));
                lemma_usable_count_bound(self@.take(i + 1));
            }
            if self.providers[i].1.policy() == ProviderPolicy::Usable {
                count = count + 1;
            }
            i = i + 1;
        }
        proof {
            assert(self@.take(self@.len() as int) == self@);
        }
        count
    }
}

// ---------------------------------------------------------------------------
// Debug text: every secret is written as `[redacted]`.
// ---------------------------------------------------------------------------

pub open spec fn bool_text(b: bool) -> Seq<char> {
    if b {
        "true"@
    } else {
        "false"@
    }
}

/// `{:?}` of an `Option<String>`.
pub open spec fn debug_option(o: Option<Seq<char>>) -> Seq<char> {
    match o {
        Some(s) => "Some("@ + debug_text(s) + ")"@,
        None => "None"@,
    }
}

/// The debug text of one credential.
pub open spec fn entry_debug(e: EntryView) -> Seq<char> {
    match e {
        EntryView::Oauth(a) => "Oauth { refresh: "@ + "[redacted]"@ + ", access: "@ + "[redacted]"@
            + ", expires: "@ + decimal(a.expires) + ", account_id: "@ + debug_option(a.account_id)
            + ", enterprise_url: "@ + debug_option(a.enterprise_url) + " }"@,
        EntryView::Api(a) => "Api { key: "@ + "[redacted]"@ + ", metadata_present: "@ + bool_text(
            a.metadata is Some,
        ) + " }"@,
        EntryView::Wellknown(_) => "Wellknown { key: "@ + "[redacted]"@ + ", token: "@
            + "[redacted]"@ + " }"@,
    }
}

pub open spec fn pair_debug(p: (Seq<char>, EntryView)) -> Seq<char> {
    debug_text(p.0) + ": "@ + entry_debug(p.1)
}

/// The entries of a store, separated by `", "`.
pub open spec fn entries_debug(s: Seq<(Seq<char>, EntryView)>) -> Seq<char>
    decreases s.len(),
{
    if s.len() == 0 {
        Seq::empty()
    } else if s.len() == 1 {
        pair_debug(s[0])
    } else {
        entries_debug(s.drop_last()) + ", "@ + pair_debug(s.last())
    }
}

/// The debug text of a store.
pub open spec fn store_debug(s: Seq<(Seq<char>, EntryView)>) -> Seq<char> {
    "AuthStore { providers: {"@ + entries_debug(s) + "} }"@
}

/// The credential with every secret replaced by the empty text.
pub open spec fn redact(e: EntryView) -> EntryView {
    match e {
        EntryView::Oauth(a) => EntryView::Oauth(OauthView { refresh: Seq::empty(), access: Seq::empty(), ..a }),
        EntryView::Api(a) => EntryView::Api(ApiView { key: Seq::empty(), ..a }),
        EntryView::Wellknown(_) => EntryView::Wellknown(
            WellknownView { key: Seq::empty(), token: Seq::empty() },
        ),
    }
}

pub open spec fn redact_store(s: Seq<(Seq<char>, EntryView)>) -> Seq<(Seq<char>, EntryView)> {
    s.map_values(|p: (Seq<char>, EntryView)| (p.0, redact(p.1)))
}

/// The debug text of a store does not depend on any secret: it is the text
/// of the same store with every secret emptied.
pub proof fn lemma_debug_hides_secrets(s: Seq<(Seq<char>, EntryView)>)
    ensures
        store_debug(s) == store_debug(redact_store(s)),
        entries_debug(s) == entries_debug(redact_store(s)),
    decreases s.len(),
{
    if s.len() > 1 {
        lemma_debug_hides_secrets(s.drop_last());
        assert(redact_store(s.drop_last()) == redact_store(s).drop_last());
    }
}

fn append_debug_option(out: &mut String, o: &Option<String>)
    ensures
        final(out)@ == old(out)@ + debug_option(opt_string_view(*o)),
{
    match o {
        Some(s) => {
            out.append("Some(");
            let q = debug_quoted(s.as_str());
            out.append(q.as_str());
            out.append(")");
            assert(final(out)@ == old(out)@ + debug_option(opt_string_view(*o)));
        },
        None => {
            out.append("None");
        },
    }
}

impl ProviderEntry {
    /// Appends the debug text of this credential to `out`.
    fn append_debug(&self, out: &mut String)
        ensures
            final(out)@ == old(out)@ + entry_debug(self@),
    {
        match self {
            ProviderEntry::Oauth(auth) => {
                out.append("Oauth { refresh: ");
                out.append(auth.refresh.to_string().as_str());
                out.append(", access: ");
                out.append(auth.access.to_string().as_str());
                out.append(", expires: ");
                push_decimal(out, auth.expires);
                out.append(", account_id: ");
                append_debug_option(out, &auth.account_id);
                out.append(", enterprise_url: ");
                append_debug_option(out, &auth.enterprise_url);
                out.append(" }");
            },
            ProviderEntry::Api(auth) => {
                out.append("Api { key: ");
                out.append(auth.key.to_string().as_str());
                out.append(", metadata_present: ");
                if auth.metadata.is_some() {
                    out.append("true");
                } else {
                    out.append("false");
                }
                out.append(" }");
            },
            ProviderEntry::Wellknown(auth) => {
                out.append("Wellknown { key: ");
                out.append(auth.key.to_string().as_str());
                out.append(", token: ");
                out.append(auth.token.to_string().as_str());
                out.append(" }");
            },
        }
        assert(final(out)@ =~= old(out)@ + entry_debug(self@));
    }

    /// The debug text of this credential, with its secrets redacted.
    pub fn debug_string(&self) -> (r: String)
        ensures
            r@ == entry_debug(self@),
    {
        let mut out = String::new();
        self.append_debug(&mut out);
        assert(out@ =~= entry_debug(self@));
        out
    }
}

impl AuthStore {
    /// The debug text of the store, with every secret redacted.
    pub fn debug_string(&self) -> (r: String)
        ensures
            r@ == store_debug(self@),
    {
        let mut out = String::from_str("AuthStore { providers: {");
        let ghost start = out@;
        let mut i: usize = 0;
        proof {
            assert(self@.take(0) == Seq::<(Seq<char>, EntryView)>::empty());
            assert(out@ == start + entries_debug(self@.take(0)));
        }
        while i < self.providers.len()
            invariant
                i <= self.providers.len(),
                self@.len() == self.providers.len(),
                start == "AuthStore { providers: {"@,
                out@ == start + entries_debug(self@.take(i as int)),
            decreases self.providers.len() - i,
        {
            let ghost before = out@;
            if i > 0 {
                out.append(", ");
            }
            let (id, entry) = &self.providers[i];
            let q = debug_quoted(id.as_str());
            out.append(q.as_str());
            out.append(": ");
            entry.append_debug(&mut out);
            proof {
                let t = self@.take(i + 1);
                assert(t.drop_last() == self@.take(i as int));
                assert(t.last() == self@[i as int]);
                assert(self@[i as int] == (id@, entry@));
                if i == 0 {
                    assert(out@ =~= start + entries_debug(t));
                } else {
                    assert(out@ =~= start + entries_debug(t));
                }
            }
            i = i + 1;
        }
        out.append("} }");
        proof {
            assert(self@.take(self@.len() as int) == self@);
            assert(out@ =~= store_debug(self@));
        }
        out
    }
}

// ---------------------------------------------------------------------------
// Sources.
// ---------------------------------------------------------------------------

/// Reads credentials handed over in an environment variable: `None` where
/// the text is blank or is not a credential document.
pub fn snapshot_from_env(content: &str) -> (r: Option<AuthSnapshot>)
    ensures
        match r {
            Some(snap) => {
                &&& !is_blank(content@)
                &&& json_document(content@) is Some
                &&& provider_map(json_document(content@)->0) == Ok::<_, AuthError>(
                    (snap.store@, snap.malformed_entries as nat),
                )
                &&& snap.source == AuthSource::Env
                &&& snap.resolved_path is None
            },
            None => is_blank(content@) || json_document(content@) is None || provider_map(
                json_document(content@)->0,
            ) is Err,
        },
{
    if str_is_blank(content) {
        return None;
    }
    match parse_auth_content(content, AuthSource::Env, None) {
        Ok(snap) => Some(snap),
        Err(_) => None,
    }
}

/// What a credential text gives: the store and malformed count of its
/// document, or why it is refused.
pub open spec fn document_store(text: Seq<char>) -> Result<(Seq<(Seq<char>, EntryView)>, nat), AuthError> {
    match json_document(text) {
        Some(root) => provider_map(root),
        None => Err(AuthError::InvalidJson),
    }
}

/// Chooses where the credentials come from: the environment's document
/// where it was accepted, else the first credential file that exists (its
/// path and text), whose refusal is the answer, else no credentials at all.
pub fn select_snapshot(env: Option<AuthSnapshot>, first_file: Option<(PathBuf, String)>) -> (r: Result<AuthSnapshot, AuthError>)
    ensures
        match env {
            Some(s) => r == Ok::<AuthSnapshot, AuthError>(s),
            None => match first_file {
                Some((path, text)) => match r {
                    Ok(snap) => {
                        &&& document_store(text@) == Ok::<_, AuthError>(
                            (snap.store@, snap.malformed_entries as nat),
                        )
                        &&& snap.source == AuthSource::File
                        &&& snap.resolved_path == Some(path)
                        &&& keys_sorted(snap.store@)
                    },
                    Err(e) => document_store(text@) == Err::<(Seq<(Seq<char>, EntryView)>, nat), _>(e),
                },
                None => r matches Ok(snap) && snap.source == AuthSource::Missing
                    && snap.resolved_path is None && snap.malformed_entries == 0
                    && snap.store@.len() == 0,
            },
        },
{
    match env {
        Some(s) => Ok(s),
        None => match first_file {
            Some((path, text)) => parse_auth_content(text.as_str(), AuthSource::File, Some(path)),
            None => Ok(
                AuthSnapshot {
                    source: AuthSource::Missing,
                    resolved_path: None,
                    malformed_entries: 0,
                    store: AuthStore::default(),
                },
            ),
        },
    }
}

/// The path `rel` joined onto `base`, as `Path::join` forms it on Unix: an
/// absolute `rel` replaces `base`; otherwise `rel` follows `base`, after a
/// `/` where `base` is not empty and does not already end in one.
pub open spec fn joined_path(base: Seq<char>, rel: Seq<char>) -> Seq<char> {
    if rel.len() > 0 && rel[0] == '/' {
        rel
    } else if base.len() == 0 || base.last() == '/' {
        base + rel
    } else {
        base + "/"@ + rel
    }
}

/// Whether two paths have the same components (`<Path as PartialEq>::eq`).
pub uninterp spec fn same_path(a: Seq<char>, b: Seq<char>) -> bool;

/// Calls `Path::join` (a Unix path). Trusted: the result is the joined path
/// as `PathBuf::push` forms it (an absolute `rel` truncates the buffer; a
/// separator is pushed where the buffer is not empty and does not end in
/// one), and it converts back unchanged, both parts being UTF-8.
#[verifier::external_body]
fn join_path(base: &str, rel: &str) -> (r: String)
    ensures
        r@ == joined_path(base@, rel@),
{
    std::path::Path::new(base).join(rel).to_string_lossy().into_owned()
}

/// Compares two paths with `<Path as PartialEq>::eq`. Trusted: the result is
/// the named comparison, and (`Path` being `Eq`) a path equals itself.
#[verifier::external_body]
fn paths_equal(a: &str, b: &str) -> (r: bool)
    ensures
        r == same_path(a@, b@),
        a@ == b@ ==> r,
{
    std::path::Path::new(a) == std::path::Path::new(b)
}

/// The credential files to try, in order: `$XDG_DATA_HOME/opencode/auth.json`
/// (or, without it, the one under the home directory), then the one under
/// the home directory where it differs from the first.
pub open spec fn candidate_paths(xdg: Option<Seq<char>>, home: Option<Seq<char>>) -> Seq<Seq<char>> {
    let first: Seq<Seq<char>> = match xdg {
        Some(x) => seq![joined_path(x, "opencode/auth.json"@)],
        None => match home {
            Some(h) => seq![joined_path(h, ".local/share/opencode/auth.json"@)],
            None => Seq::empty(),
        },
    };
    match home {
        Some(h) => {
            let legacy = joined_path(h, ".local/share/opencode/auth.json"@);
            if first.len() == 0 || !same_path(first[0], legacy) {
                first.push(legacy)
            } else {
                first
            }
        },
        None => first,
    }
}

pub open spec fn opt_str_view(o: Option<&str>) -> Option<Seq<char>> {
    match o {
        Some(s) => Some(s@),
        None => None,
    }
}

/// The credential files to try, given `$XDG_DATA_HOME` and the home
/// directory.
pub fn auth_file_candidates(xdg: Option<&str>, home: Option<&str>) -> (r: Vec<String>)
    ensures
        r@.map_values(|p: String| p@) == candidate_paths(opt_str_view(xdg), opt_str_view(home)),
        r@.len() <= 2,
        r@.len() == 2 ==> r@[0]@ != r@[1]@ && !same_path(r@[0]@, r@[1]@),
        xdg is None ==> r@.map_values(|p: String| p@) == match home {
            Some(h) => seq![joined_path(h@, ".local/share/opencode/auth.json"@)],
            None => Seq::<Seq<char>>::empty(),
        },
{
    let mut out: Vec<String> = Vec::new();
    match xdg {
        Some(x) => out.push(join_path(x, "opencode/auth.json")),
        None => match home {
            Some(h) => out.push(join_path(h, ".local/share/opencode/auth.json")),
            None => {},
        },
    }
    if let Some(h) = home {
        let legacy = join_path(h, ".local/share/opencode/auth.json");
        if out.len() == 0 || !paths_equal(out[0].as_str(), legacy.as_str()) {
            out.push(legacy);
        }
    }
    assert(out@.map_values(|p: String| p@) =~= candidate_paths(opt_str_view(xdg), opt_str_view(home)));
    out
}

} // verus!
