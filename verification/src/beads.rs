//! The beads rover: its credential store and which one it uses, whether a
//! `bd` listing is used, and the command an issue asks to run.
use vstd::prelude::*;
use crate::json::{Json, JsonValue, json_fields_view, opt_string_view};
use crate::text::{str_equal, trim, trimmed, text_lines, split_text_lines};

verus! {

broadcast use vstd::string::group_string_axioms;

/// One provider's credential, in the shape of OpenCode's `auth.json`.
#[derive(Debug)]
pub struct ProviderAuth {
    pub type_: Option<String>,
    pub type_field: Option<String>,
    pub key: Option<String>,
    pub token: Option<String>,
    pub access_token: Option<String>,
    pub refresh_token: Option<String>,
    pub expires_at: Option<i64>,
    /// Every other field of the entry, in document order.
    pub extra: Vec<(String, Json)>,
}

pub struct ProviderAuthView {
    pub type_: Option<Seq<char>>,
    pub type_field: Option<Seq<char>>,
    pub key: Option<Seq<char>>,
    pub token: Option<Seq<char>>,
    pub access_token: Option<Seq<char>>,
    pub refresh_token: Option<Seq<char>>,
    pub expires_at: Option<i64>,
    pub extra: Seq<(Seq<char>, JsonValue)>,
}

impl View for ProviderAuth {
    type V = ProviderAuthView;

    open spec fn view(&self) -> ProviderAuthView {
        ProviderAuthView {
            type_: opt_string_view(self.type_),
            type_field: opt_string_view(self.type_field),
            key: opt_string_view(self.key),
            token: opt_string_view(self.token),
            access_token: opt_string_view(self.access_token),
            refresh_token: opt_string_view(self.refresh_token),
            expires_at: self.expires_at,
            extra: json_fields_view(self.extra@),
        }
    }
}

/// The credentials of all providers, by provider id.
#[derive(Debug)]
pub struct AuthStore {
    pub providers: Vec<(String, ProviderAuth)>,
}

impl View for AuthStore {
    type V = Seq<(Seq<char>, ProviderAuthView)>;

    open spec fn view(&self) -> Seq<(Seq<char>, ProviderAuthView)> {
        self.providers@.map_values(|p: (String, ProviderAuth)| (p.0@, p.1@))
    }
}

pub open spec fn opt_str_view(o: Option<&str>) -> Option<Seq<char>> {
    match o {
        Some(s) => Some(s@),
        None => None,
    }
}

/// The token to send: the access token, else the token, else the key.
pub open spec fn bearer_of(a: ProviderAuthView) -> Option<Seq<char>> {
    if a.access_token is Some {
        a.access_token
    } else if a.token is Some {
        a.token
    } else {
        a.key
    }
}

impl ProviderAuth {
    /// The token to send: the access token, else the token, else the key.
    pub fn bearer(&self) -> (r: Option<&str>)
        ensures
            opt_str_view(r) == bearer_of(self@),
    {
        match &self.access_token {
            Some(s) => Some(s.as_str()),
            None => match &self.token {
                Some(s) => Some(s.as_str()),
                None => match &self.key {
                    Some(s) => Some(s.as_str()),
                    None => None,
                },
            },
        }
    }
}

impl AuthStore {
    /// The empty store.
    pub fn new() -> (r: AuthStore)
        ensures
            r@ == Seq::<(Seq<char>, ProviderAuthView)>::empty(),
    {
        let r = AuthStore { providers: Vec::new() };
        assert(r@ =~= Seq::<(Seq<char>, ProviderAuthView)>::empty());
        r
    }
}

impl Default for AuthStore {
    fn default() -> (r: Self)
        ensures
            r@ == Seq::<(Seq<char>, ProviderAuthView)>::empty(),
    {
        AuthStore::new()
    }
}

/// Whether a store was read and holds at least one credential.
pub open spec fn holds_credentials(o: Option<AuthStore>) -> bool {
    match o {
        Some(store) => store@.len() > 0,
        None => false,
    }
}

/// Chooses the rover's credentials among the stores that were read: the
/// OpenCode store where it holds a credential, else the `~/.ufo` store, else
/// the empty store.
pub fn choose_store(opencode: Option<AuthStore>, ufo: Option<AuthStore>) -> (r: AuthStore)
    ensures
        holds_credentials(opencode) ==> r@ == opencode->0@,
        !holds_credentials(opencode) ==> r@ == match ufo {
            Some(u) => u@,
            None => Seq::<(Seq<char>, ProviderAuthView)>::empty(),
        },
{
    if let Some(store) = opencode {
        if store.providers.len() > 0 {
            return store;
        }
    }
    match ufo {
        Some(u) => u,
        None => AuthStore::new(),
    }
}

/// The kind shown for a credential: its `type` field, else its `type_`
/// field, else `unknown`.
pub open spec fn kind_label(a: ProviderAuthView) -> Seq<char> {
    match a.type_field {
        Some(t) => t,
        None => match a.type_ {
            Some(t) => t,
            None => "unknown"@,
        },
    }
}

/// Each provider id with the kind of its credential, in store order.
pub fn list_providers(store: &AuthStore) -> (r: Vec<(String, String)>)
    ensures
        r@.len() == store@.len(),
        forall|i: int|
            0 <= i < r@.len() ==> #[trigger] r@[i].0@ == store@[i].0 && r@[i].1@ == kind_label(
                store@[i].1,
            ),
{
    let mut out: Vec<(String, String)> = Vec::new();
    let mut i: usize = 0;
    while i < store.providers.len()
        invariant
            i <= store.providers.len(),
            store@.len() == store.providers.len(),
            out@.len() == i,
            forall|j: int|
                0 <= j < i ==> #[trigger] out@[j].0@ == store@[j].0 && out@[j].1@ == kind_label(
                    store@[j].1,
                ),
        decreases store.providers.len() - i,
    {
        let (id, a) = &store.providers[i];
        let kind = match &a.type_field {
            Some(t) => t.clone(),
            None => match &a.type_ {
                Some(t) => t.clone(),
                None => String::from_str("unknown"),
            },
        };
        out.push((id.clone(), kind));
        i = i + 1;
    }
    out
}

// ---------------------------------------------------------------------------
// Working with `bd`: whether its listing is used, and the command an issue
// asks to run.
// ---------------------------------------------------------------------------

/// The output of `bd ready` is used unless it is blank or an empty list.
pub open spec fn ready_output_usable_spec(s: Seq<char>) -> bool {
    trimmed(s).len() > 0 && trimmed(s) != "[]"@
}

/// Whether the output of `bd ready` lists work, so that the rover need not
/// fall back to the open issues.
pub fn ready_output_usable(s: &str) -> (r: bool)
    ensures
        r == ready_output_usable_spec(s@),
{
    let t = trim(s);
    t.unicode_len() > 0 && !str_equal(t, "[]")
}

/// `s` begins with `p`.
pub open spec fn starts_with(s: Seq<char>, p: Seq<char>) -> bool {
    s.len() >= p.len() && s.take(p.len() as int) == p
}

/// `s` with every leading repetition of `p` removed (`trim_start_matches`).
pub open spec fn strip_all_prefix(s: Seq<char>, p: Seq<char>) -> Seq<char>
    decreases s.len(),
{
    if p.len() > 0 && starts_with(s, p) {
        strip_all_prefix(s.skip(p.len() as int), p)
    } else {
        s
    }
}

/// The first line that starts with `pilot:`.
pub open spec fn first_pilot_line(lines: Seq<Seq<char>>) -> Option<Seq<char>>
    decreases lines.len(),
{
    if lines.len() == 0 {
        None
    } else if starts_with(lines[0], "pilot:"@) {
        Some(lines[0])
    } else {
        first_pilot_line(lines.drop_first())
    }
}

/// The command an issue asks the pilot to run: the first description line
/// that starts with `pilot:`, without that prefix (repeated) and trimmed;
/// without one, a command that only reports the issue.
pub open spec fn pilot_command_of(id: Seq<char>, description: Option<Seq<char>>) -> Seq<char> {
    let line = match description {
        Some(d) => first_pilot_line(text_lines(d)),
        None => None,
    };
    match line {
        Some(l) => trimmed(strip_all_prefix(l, "pilot:"@)),
        None => "echo 'executing beads issue "@ + id + "'"@,
    }
}

fn str_starts_with(s: &str, p: &str) -> (r: bool)
    ensures
        r == starts_with(s@, p@),
{
    let n = s.unicode_len();
    let m = p.unicode_len();
    if n < m {
        return false;
    }
    let head = s.substring_char(0, m);
    assert(head@ == s@.take(m as int));
    str_equal(head, p)
}

fn strip_prefix_all<'a>(s: &'a str, p: &str) -> (r: &'a str)
    ensures
        r@ == strip_all_prefix(s@, p@),
{
    let n = s.unicode_len();
    let m = p.unicode_len();
    if m == 0 {
        return s;
    }
    let mut pos: usize = 0;
    let mut rest: &str = s;
    while str_starts_with(rest, p)
        invariant
            n == s@.len(),
            m == p@.len(),
            m > 0,
            pos <= n,
            rest@ == s@.skip(pos as int),
            strip_all_prefix(s@, p@) == strip_all_prefix(rest@, p@),
        decreases n - pos,
    {
        assert(rest@.skip(m as int) == s@.skip(pos + m));
        pos = pos + m;
        rest = s.substring_char(pos, n);
        assert(s@.subrange(pos as int, n as int) == s@.skip(pos as int));
    }
    rest
}

/// The command to run for an issue with `description`.
pub fn pilot_command(issue_id: &str, description: Option<&str>) -> (r: String)
    ensures
        r@ == pilot_command_of(issue_id@, opt_str_view(description)),
{
    if let Some(d) = description {
        let lines = split_text_lines(d);
        let ghost lv = lines@.map_values(|l: String| l@);
        let mut i: usize = 0;
        proof {
            assert(lv.skip(0) == lv);
        }
        while i < lines.len()
            invariant
                i <= lines.len(),
                lv == lines@.map_values(|l: String| l@),
                lv == text_lines(d@),
                opt_str_view(description) == Some(d@),
                first_pilot_line(lv) == first_pilot_line(lv.skip(i as int)),
            decreases lines.len() - i,
        {
            assert(lv.skip(i as int)[0] == lines@[i as int]@);
            if str_starts_with(lines[i].as_str(), "pilot:") {
                let stripped = strip_prefix_all(lines[i].as_str(), "pilot:");
                return String::from_str(trim(stripped));
            }
            proof {
                assert(lv.skip(i as int).drop_first() == lv.skip(i + 1));
            }
            i = i + 1;
        }
    }
    let mut out = String::from_str("echo 'executing beads issue ");
    out.append(issue_id);
    out.append("'");
    out
}

} // verus!
