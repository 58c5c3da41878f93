use vstd::prelude::*;
use vstd::utf8::encode_utf8;
use vstd::string::StrSliceExecFns;
use url::ParseError;
use crate::error::UrlError;
use crate::text::same_text;

verus! {

/// The `url` crate's URL type.
#[verifier::external_type_specification]
#[verifier::external_body]
pub struct ExUrl(url::Url);

/// What `url::Url::parse` makes of a text: the text of the URL it builds
/// (as `Url::as_str` gives it), or the kind of error when it refuses the
/// text.
pub uninterp spec fn url_parse_outcome(input: Seq<char>) -> Result<Seq<char>, UrlError>;

/// The text of a URL, as `url::Url::as_str` gives it.
pub uninterp spec fn url_text(url: url::Url) -> Seq<char>;

/// The name/value pairs of the query of the URL with the given text, as
/// `url::Url::query_pairs` decodes them, in order.
pub uninterp spec fn url_query_pairs(text: Seq<char>) -> Seq<(Seq<char>, Seq<char>)>;

/// The number of bytes of a text in UTF-8.
pub open spec fn byte_len(s: Seq<char>) -> nat {
    encode_utf8(s).len()
}

/// The length of the part of a URL's text before its query and fragment.
pub open spec fn head_len(t: Seq<char>) -> nat
    decreases t.len(),
{
    if t.len() == 0 || t[0] == '?' || t[0] == '#' {
        0
    } else {
        1 + head_len(t.drop_first())
    }
}

/// Where a URL's fragment (its `#` and what follows) starts in its text.
pub open spec fn fragment_start(t: Seq<char>) -> nat
    decreases t.len(),
{
    if t.len() == 0 || t[0] == '#' {
        0
    } else {
        1 + fragment_start(t.drop_first())
    }
}

/// The part of a URL's text before its query and fragment: the scheme,
/// the authority (user, host, port) and the path.
pub open spec fn url_head(t: Seq<char>) -> Seq<char> {
    t.take(head_len(t) as int)
}

/// The fragment of a URL's text, with its `#`; empty when there is none.
pub open spec fn url_fragment(t: Seq<char>) -> Seq<char> {
    t.skip(fragment_start(t) as int)
}

/// Whether the `application/x-www-form-urlencoded` byte serializer keeps a
/// byte as it is: ASCII letters and digits, `*`, `-`, `.` and `_`.
pub open spec fn form_keeps(b: u8) -> bool {
    ||| b == 0x2a || b == 0x2d || b == 0x2e || b == 0x5f
    ||| 0x30 <= b <= 0x39
    ||| 0x41 <= b <= 0x5a
    ||| 0x61 <= b <= 0x7a
}

/// An upper-case hexadecimal digit.
pub open spec fn hex_digit(n: u8) -> char {
    "0123456789ABCDEF"@[n as int]
}

/// The form-urlencoded text of one byte: a byte that is kept stands for
/// itself, a space is written `+`, any other byte `%` and its value in two
/// hexadecimal digits.
pub open spec fn form_byte(b: u8) -> Seq<char> {
    if form_keeps(b) {
        seq![b as char]
    } else if b == 0x20 {
        seq!['+']
    } else {
        seq!['%', hex_digit(b / 16), hex_digit(b % 16)]
    }
}

/// The `application/x-www-form-urlencoded` text of a sequence of bytes.
pub open spec fn form_encoded(bytes: Seq<u8>) -> Seq<char>
    decreases bytes.len(),
{
    if bytes.len() == 0 {
        Seq::empty()
    } else {
        form_encoded(bytes.drop_last()) + form_byte(bytes.last())
    }
}

/// The form-urlencoded text of a text, taken as its UTF-8 bytes.
pub open spec fn form_text(s: Seq<char>) -> Seq<char> {
    form_encoded(encode_utf8(s))
}

/// The number of bytes of the form-urlencoded text of `bytes` (each of its
/// characters is ASCII).
pub open spec fn form_len(bytes: Seq<u8>) -> nat {
    form_encoded(bytes).len()
}

/// The bytes that one name/value pair adds to a query, without the
/// separator before it: the encoded name, `=` and the encoded value.
pub open spec fn pair_growth(name: Seq<char>, value: Seq<char>) -> nat {
    form_len(encode_utf8(name)) + 1 + form_len(encode_utf8(value))
}

/// Whether a URL's text has a query (a `?` before any `#`).
pub open spec fn has_query(t: Seq<char>) -> bool {
    head_len(t) < fragment_start(t)
}

/// Whether a URL's text has a fragment (a `#`).
pub open spec fn has_fragment(t: Seq<char>) -> bool {
    url_fragment(t).len() > 0
}

/// The separator written before a pair appended to the query of a URL's
/// text: `?` where it has no query, nothing where its query is empty, `&`
/// where it holds something.
pub open spec fn separator_text(t: Seq<char>) -> Seq<char> {
    if !has_query(t) {
        seq!['?']
    } else if fragment_start(t) == head_len(t) + 1 {
        Seq::empty()
    } else {
        seq!['&']
    }
}

/// The length of `separator_text`.
pub open spec fn separator_len(t: Seq<char>) -> nat {
    separator_text(t).len()
}

/// The text of a URL after one form-urlencoded pair is appended to its
/// query: what came before the fragment, the separator, the encoded name,
/// `=`, the encoded value, then the fragment again.
pub open spec fn with_pair_text(t: Seq<char>, name: Seq<char>, value: Seq<char>) -> Seq<char> {
    t.take(fragment_start(t) as int) + separator_text(t) + form_text(name) + seq!['='] + form_text(
        value,
    ) + url_fragment(t)
}

/// The text of a URL after the pairs are appended to its query one by one.
pub open spec fn with_pairs_text(t: Seq<char>, pairs: Seq<(Seq<char>, Seq<char>)>) -> Seq<char>
    decreases pairs.len(),
{
    if pairs.len() == 0 {
        t
    } else {
        with_pairs_text(with_pair_text(t, pairs[0].0, pairs[0].1), pairs.drop_first())
    }
}

/// The query pairs of a URL's text; none where it has no query.
pub open spec fn query_pairs_of(t: Seq<char>) -> Seq<(Seq<char>, Seq<char>)> {
    if has_query(t) {
        url_query_pairs(t)
    } else {
        Seq::empty()
    }
}

/// The number of bytes of a URL's text that starts with `len` bytes, after
/// the pairs are appended one by one, the first one after a separator of
/// `sep` bytes and each later one after an `&`.
pub open spec fn appended_len(len: nat, sep: nat, pairs: Seq<(Seq<char>, Seq<char>)>) -> nat
    decreases pairs.len(),
{
    if pairs.len() == 0 {
        len
    } else {
        appended_len(len + sep + pair_growth(pairs[0].0, pairs[0].1), 1, pairs.drop_first())
    }
}

/// Whether appending the pairs to the query of the URL with text `t` makes
/// the `url` crate give up: it records the start of a new query, and the
/// start of a fragment it puts back, as 32-bit offsets.
pub open spec fn append_overflows(t: Seq<char>, pairs: Seq<(Seq<char>, Seq<char>)>) -> bool {
    ||| pairs.len() > 0 && !has_query(t) && byte_len(t) > u32::MAX
    ||| has_fragment(t) && appended_len(byte_len(t), separator_len(t), pairs) > u32::MAX
}

/// Calls `url::Url::parse`, and tells the kind of a refusal by the
/// `url::ParseError` variant. The contract claims that the outcome (the
/// text of the URL, or the kind of error) depends on the input alone.
#[verifier::external_body]
fn parse_url(input: &str) -> (r: Result<url::Url, UrlError>)
    ensures
        match r {
            Ok(u) => url_parse_outcome(input@) == Ok::<Seq<char>, UrlError>(url_text(u)),
            Err(e) => url_parse_outcome(input@) == Err::<Seq<char>, UrlError>(e),
        },
{
    match url::Url::parse(input) {
        Ok(u) => Ok(u),
        Err(ParseError::EmptyHost) => Err(UrlError::EmptyHost),
        Err(ParseError::IdnaError) => Err(UrlError::IdnaError),
        Err(ParseError::InvalidPort) => Err(UrlError::InvalidPort),
        Err(ParseError::InvalidIpv4Address) => Err(UrlError::InvalidIpv4Address),
        Err(ParseError::InvalidIpv6Address) => Err(UrlError::InvalidIpv6Address),
        Err(ParseError::InvalidDomainCharacter) => Err(UrlError::InvalidDomainCharacter),
        Err(ParseError::RelativeUrlWithoutBase) => Err(UrlError::RelativeUrlWithoutBase),
        Err(ParseError::RelativeUrlWithCannotBeABaseBase) => Err(UrlError::RelativeUrlWithCannotBeABaseBase),
        Err(ParseError::SetHostOnCannotBeABaseUrl) => Err(UrlError::SetHostOnCannotBeABaseUrl),
        Err(ParseError::Overflow) => Err(UrlError::Overflow),
        Err(_) => Err(UrlError::Other),
    }
}

/// Calls `url::Url::as_str` and `str::len`: the number of bytes of the
/// URL's text.
#[verifier::external_body]
fn url_byte_len(url: &url::Url) -> (n: usize)
    ensures
        n == byte_len(url_text(*url)),
{
    url.as_str().len()
}

/// Calls `url::Url::query`: the query of the URL without its `?`, or
/// nothing where it has none.
#[verifier::external_body]
fn url_query(url: &url::Url) -> (r: Option<&str>)
    ensures
        match r {
            Some(q) => has_query(url_text(*url)) && q@ == url_text(*url).subrange(
                head_len(url_text(*url)) + 1int,
                fragment_start(url_text(*url)) as int,
            ),
            None => !has_query(url_text(*url)) && url_query_pairs(url_text(*url)) == Seq::<
                (Seq<char>, Seq<char>),
            >::empty(),
        },
{
    url.query()
}

/// Calls `url::Url::fragment`: the fragment of the URL without its `#`, or
/// nothing where it has none.
#[verifier::external_body]
fn url_fragment_text(url: &url::Url) -> (r: Option<&str>)
    ensures
        match r {
            Some(f) => has_fragment(url_text(*url)) && f@ == url_fragment(url_text(*url)).drop_first(),
            None => !has_fragment(url_text(*url)),
        },
{
    url.fragment()
}

/// Calls `url::Url::query_pairs_mut` and `append_pair` on the serializer it
/// returns. The contract claims that the text of the URL grows by the
/// separator (`?` where there was no query, `&` after a query that holds
/// something) and the form-urlencoded name, `=` and value, written before
/// the fragment, and that the query then decodes to the pairs it decoded to
/// before, followed by `(name, value)`. The text
/// before the query (scheme, authority, path) is not touched, and the
/// fragment is taken off and put back after the new query. The `url` crate
/// panics where it has to record the start of a new query past `u32::MAX`
/// bytes, or the start of the fragment it puts back; the precondition rules
/// both out.
#[verifier::external_body]
fn append_query_pair(url: &mut url::Url, name: &str, value: &str)
    requires
        !has_query(url_text(*old(url))) ==> byte_len(url_text(*old(url))) <= u32::MAX,
        has_fragment(url_text(*old(url))) ==> byte_len(url_text(*old(url))) + separator_len(
            url_text(*old(url)),
        ) + pair_growth(name@, value@) <= u32::MAX,
    ensures
        url_text(*final(url)) == with_pair_text(url_text(*old(url)), name@, value@),
        url_query_pairs(url_text(*final(url))) == url_query_pairs(url_text(*old(url))).push(
            (name@, value@),
        ),
        url_head(url_text(*final(url))) == url_head(url_text(*old(url))),
        url_fragment(url_text(*final(url))) == url_fragment(url_text(*old(url))),
        head_len(url_text(*final(url))) + 1 < fragment_start(url_text(*final(url))),
        byte_len(url_text(*final(url))) == byte_len(url_text(*old(url))) + separator_len(
            url_text(*old(url)),
        ) + pair_growth(name@, value@),
{
    url.query_pairs_mut().append_pair(name, value);
}

/// The number of bytes of the form-urlencoded text of `s`, where it stays
/// within `u32::MAX`.
fn form_encoded_len(s: &str) -> (r: Option<u64>)
    ensures
        match r {
            Some(n) => n == form_len(encode_utf8(s@)) && n <= u32::MAX,
            None => form_len(encode_utf8(s@)) > u32::MAX,
        },
{
    let bytes = s.as_bytes_vec();
    let mut n: u64 = 0;
    let mut i: usize = 0;
    proof {
        assert(bytes@.take(0) =~= Seq::<u8>::empty());
    }
    while i < bytes.len()
        invariant
            i <= bytes.len(),
            bytes@ == encode_utf8(s@),
            n == form_len(bytes@.take(i as int)),
            n <= u32::MAX,
        decreases bytes.len() - i,
    {
        let b = bytes[i];
        let w: u64 = if (b == 0x2a || b == 0x2d || b == 0x2e || b == 0x5f) || (0x30 <= b && b <= 0x39)
            || (0x41 <= b && b <= 0x5a) || (0x61 <= b && b <= 0x7a) || b == 0x20 {
            1
        } else {
            3
        };
        proof {
            let next = bytes@.take(i + 1);
            assert(next.drop_last() =~= bytes@.take(i as int));
            assert(next.last() == b);
        }
        if n + w > 0xffff_ffff {
            proof {
                lemma_form_len_prefix(bytes@, i + 1);
                assert(bytes@.take(bytes@.len() as int) =~= bytes@);
            }
            return None;
        }
        n = n + w;
        i = i + 1;
    }
    proof {
        assert(bytes@.take(bytes@.len() as int) =~= bytes@);
    }
    Some(n)
}

/// The encoded length of a prefix is at most that of the whole.
proof fn lemma_form_len_prefix(bytes: Seq<u8>, k: int)
    requires
        0 <= k <= bytes.len(),
    ensures
        form_len(bytes.take(k)) <= form_len(bytes),
    decreases bytes.len(),
{
    if k < bytes.len() {
        assert(bytes.drop_last().take(k) =~= bytes.take(k));
        lemma_form_len_prefix(bytes.drop_last(), k);
    } else {
        assert(bytes.take(k) =~= bytes);
    }
}

/// Configuration for connecting to the Glia agent gateway.
#[derive(Debug, Clone)]
pub struct GliaOptions {
    /// Gateway WebSocket URL, e.g. "ws://localhost:4003/socket/websocket".
    pub gateway_url: String,
    /// Application or tenant identifier.
    pub app_id: String,
    /// User or session owner identifier.
    pub user_id: String,
    /// Optional authentication JWT token.
    pub token: Option<String>,
    /// Protocol version (defaults to "2.0.0").
    pub vsn: String,
    /// Default system prompt for agent sessions.
    pub default_system_prompt: Option<String>,
    /// Extra query parameters for the WebSocket handshake, read as a map
    /// from name to value: where a name occurs more than once, its last
    /// entry holds its value, and only that entry is sent.
    pub params: Vec<(String, String)>,
    /// Heartbeat interval in seconds (defaults to 30).
    pub heartbeat_secs: u64,
}

/// The texts of a list of name/value pairs.
pub open spec fn pair_texts(pairs: Seq<(String, String)>) -> Seq<(Seq<char>, Seq<char>)> {
    pairs.map_values(|p: (String, String)| (p.0@, p.1@))
}

/// Whether a later pair than the one at `i` has the same name.
pub open spec fn name_occurs_later(ps: Seq<(Seq<char>, Seq<char>)>, i: int) -> bool {
    exists|j: int| i < j < ps.len() && (#[trigger] ps[j]).0 == ps[i].0
}

/// The pairs that hold the value of their name: those that no later pair
/// with the same name overrides, in order.
pub open spec fn last_of_each(ps: Seq<(Seq<char>, Seq<char>)>) -> Seq<(Seq<char>, Seq<char>)>
    decreases ps.len(),
{
    if ps.len() == 0 {
        Seq::empty()
    } else if name_occurs_later(ps, 0) {
        last_of_each(ps.drop_first())
    } else {
        seq![ps[0]] + last_of_each(ps.drop_first())
    }
}

/// The canonical session topic: `session:<app_id>:<user_id>`.
pub open spec fn session_topic_text(app_id: Seq<char>, user_id: Seq<char>) -> Seq<char> {
    "session:"@ + app_id + ":"@ + user_id
}

/// No two of the extra parameters have the same name.
pub open spec fn param_names_distinct(params: Seq<(String, String)>) -> bool {
    forall|i: int, j: int|
        0 <= i < j < params.len() ==> (#[trigger] params[i]).0@ != (#[trigger] params[j]).0@
}

/// The extra parameters as a map from name to value.
pub open spec fn param_map(params: Seq<(String, String)>) -> Map<Seq<char>, Seq<char>>
    decreases params.len(),
{
    if params.len() == 0 {
        Map::empty()
    } else {
        param_map(params.drop_last()).insert(params.last().0@, params.last().1@)
    }
}

/// Whether a later extra parameter than the one at `i` has the same name.
fn name_later(params: &Vec<(String, String)>, i: usize) -> (r: bool)
    requires
        i < params@.len(),
    ensures
        r == name_occurs_later(pair_texts(params@), i as int),
{
    let ghost ps = pair_texts(params@);
    let n: usize = params.len();
    let mut j: usize = i + 1;
    while j < n
        invariant
            n == params.len(),
            i < j <= params.len(),
            ps == pair_texts(params@),
            forall|k: int| i < k < j ==> (#[trigger] ps[k]).0 != ps[i as int].0,
        decreases params.len() - j,
    {
        if same_text(params[j].0.as_str(), params[i].0.as_str()) {
            proof {
                assert(ps[j as int].0 == ps[i as int].0);
            }
            return true;
        }
        j = j + 1;
    }
    false
}

impl GliaOptions {
    /// Every setting but the gateway URL, the application and the user has
    /// its default: no token, protocol version "2.0.0", no default system
    /// prompt, no extra parameters, a 30 second heartbeat.
    pub open spec fn has_default_settings(self) -> bool {
        &&& self.token is None
        &&& self.vsn@ == "2.0.0"@
        &&& self.default_system_prompt is None
        &&& self.params@.len() == 0
        &&& self.heartbeat_secs == 30
    }

    /// The query pairs of the WebSocket handshake: `vsn`, then `token` when
    /// there is one, then the extra parameters, each name once with the
    /// value of its last entry.
    pub open spec fn handshake_pairs(self) -> Seq<(Seq<char>, Seq<char>)> {
        seq![("vsn"@, self.vsn@)] + (match self.token {
            Some(t) => seq![("token"@, t@)],
            None => Seq::empty(),
        }) + last_of_each(pair_texts(self.params@))
    }

    /// Options for the given gateway, application and user, with every
    /// other setting at its default.
    pub fn new(gateway_url: &str, app_id: &str, user_id: &str) -> (r: GliaOptions)
        ensures
            r.gateway_url@ == gateway_url@,
            r.app_id@ == app_id@,
            r.user_id@ == user_id@,
            r.has_default_settings(),
    {
        GliaOptions {
            gateway_url: String::from_str(gateway_url),
            app_id: String::from_str(app_id),
            user_id: String::from_str(user_id),
            token: None,
            vsn: String::from_str("2.0.0"),
            default_system_prompt: None,
            params: Vec::new(),
            heartbeat_secs: 30,
        }
    }

    /// The same options with `token` as authentication token.
    pub fn with_token(self, token: &str) -> (r: GliaOptions)
        ensures
            r.token.deep_view() == Some(token@),
            r == (GliaOptions { token: r.token, ..self }),
    {
        let mut s = self;
        s.token = Some(String::from_str(token));
        s
    }

    /// The same options with `prompt` as default system prompt.
    pub fn with_system_prompt(self, prompt: &str) -> (r: GliaOptions)
        ensures
            r.default_system_prompt.deep_view() == Some(prompt@),
            r == (GliaOptions { default_system_prompt: r.default_system_prompt, ..self }),
    {
        let mut s = self;
        s.default_system_prompt = Some(String::from_str(prompt));
        s
    }

    /// Sets the extra parameter `name` to `value`, as a map does: where a
    /// parameter of that name is already there its value is replaced in
    /// place and the old value returned; else the parameter is added last.
    /// No other setting changes, and names stay distinct.
    pub fn insert_param(&mut self, name: &str, value: &str) -> (r: Option<String>)
        ensures
            (GliaOptions { params: final(self).params, ..*final(self) }) == (GliaOptions {
                params: final(self).params,
                ..*old(self)
            }),
            param_map(final(self).params@) == param_map(old(self).params@).insert(name@, value@),
            param_names_distinct(old(self).params@) ==> param_names_distinct(final(self).params@),
            match r {
                Some(v) => exists|k: int|
                    0 <= k < old(self).params@.len() && (#[trigger] old(self).params@[k]).0@
                        == name@ && v@ == old(self).params@[k].1@ && pair_texts(
                        final(self).params@,
                    ) == pair_texts(old(self).params@).update(k, (name@, value@)),
                None => (forall|k: int|
                    0 <= k < old(self).params@.len() ==> (#[trigger] old(self).params@[k]).0@
                        != name@) && pair_texts(final(self).params@) == pair_texts(
                    old(self).params@,
                ).push((name@, value@)),
            },
    {
        let mut i: usize = self.params.len();
        let mut found: bool = false;
        while i > 0 && !found
            invariant
                i <= self.params.len(),
                *self == *old(self),
                found ==> 0 < i && self.params@[i - 1].0@ == name@,
                forall|j: int| i <= j < self.params@.len() ==> (#[trigger] self.params@[j]).0@ != name@,
            decreases i + (if found { 0int } else { 1int }),
        {
            if same_text(self.params[i - 1].0.as_str(), name) {
                found = true;
            } else {
                i = i - 1;
            }
        }
        if found {
            let k = i - 1;
            let old_value = self.params[k].1.clone();
            let ghost before = self.params@;
            self.params.set(k, (String::from_str(name), String::from_str(value)));
            proof {
                lemma_param_map_update(before, k as int, name@, value@);
                assert(pair_texts(self.params@) =~= pair_texts(before).update(k as int, (name@, value@)));
                assert forall|a: int, b: int|
                    0 <= a < b < self.params@.len() && param_names_distinct(
                        before,
                    ) implies (#[trigger] self.params@[a]).0@ != (#[trigger] self.params@[b]).0@ by {
                    assert(self.params@[a].0@ == before[a].0@);
                    assert(self.params@[b].0@ == before[b].0@);
                }
            }
            Some(old_value)
        } else {
            let ghost before = self.params@;
            self.params.push((String::from_str(name), String::from_str(value)));
            proof {
                assert(self.params@.drop_last() =~= before);
                assert(pair_texts(self.params@) =~= pair_texts(before).push((name@, value@)));
                assert(self.params@.last() == self.params@[before.len() as int]);
                assert forall|a: int, b: int|
                    0 <= a < b < self.params@.len() && param_names_distinct(
                        before,
                    ) implies (#[trigger] self.params@[a]).0@ != (#[trigger] self.params@[b]).0@ by {
                    assert(self.params@[a] == before[a]);
                    if b < before.len() {
                        assert(self.params@[b] == before[b]);
                    }
                }
            }
            None
        }
    }

    /// The canonical topic of the session: `session:<app_id>:<user_id>`.
    pub fn session_topic(&self) -> (r: String)
        ensures
            r@ == session_topic_text(self.app_id@, self.user_id@),
    {
        let mut t = String::from_str("session:");
        t.append(self.app_id.as_str());
        t.append(":");
        t.append(self.user_id.as_str());
        t
    }

    /// The query pairs of the WebSocket handshake: `vsn`, then `token` when
    /// there is one, then the extra parameters, each name once with the
    /// value of its last entry.
    pub fn handshake_params(&self) -> (r: Vec<(String, String)>)
        ensures
            pair_texts(r@) == self.handshake_pairs(),
    {
        let mut r: Vec<(String, String)> = Vec::new();
        r.push((String::from_str("vsn"), self.vsn.clone()));
        match &self.token {
            Some(t) => {
                r.push((String::from_str("token"), t.clone()));
            },
            None => {},
        }
        let ghost head = pair_texts(r@);
        let ghost ps = pair_texts(self.params@);
        let ghost done: Seq<(Seq<char>, Seq<char>)> = Seq::empty();
        let mut i: usize = 0;
        proof {
            assert(head =~= seq![("vsn"@, self.vsn@)] + (match self.token {
                Some(t) => seq![("token"@, t@)],
                None => Seq::empty(),
            }));
            assert(ps.skip(0) =~= ps);
            assert(pair_texts(r@) =~= head + done);
            assert(done + last_of_each(ps.skip(0)) =~= last_of_each(ps));
        }
        while i < self.params.len()
            invariant
                i <= self.params.len(),
                ps == pair_texts(self.params@),
                pair_texts(r@) == head + done,
                done + last_of_each(ps.skip(i as int)) == last_of_each(ps),
            decreases self.params.len() - i,
        {
            let later = name_later(&self.params, i);
            let ghost q = ps.skip(i as int);
            proof {
                assert(q[0] == ps[i as int]);
                assert(q.drop_first() =~= ps.skip(i + 1));
                if name_occurs_later(ps, i as int) {
                    let j = choose|j: int| i < j < ps.len() && (#[trigger] ps[j]).0 == ps[i as int].0;
                    assert(q[j - i] == ps[j]);
                    assert(name_occurs_later(q, 0));
                } else if name_occurs_later(q, 0) {
                    let j = choose|j: int| 0 < j < q.len() && (#[trigger] q[j]).0 == q[0].0;
                    assert(q[j] == ps[j + i]);
                }
            }
            if !later {
                let p = &self.params[i];
                let ghost before = r@;
                r.push((p.0.clone(), p.1.clone()));
                proof {
                    assert(pair_texts(r@) =~= pair_texts(before).push(ps[i as int]));
                    assert(done.push(ps[i as int]) + last_of_each(ps.skip(i + 1)) =~= done + (seq![
                        ps[i as int],
                    ] + last_of_each(ps.skip(i + 1))));
                    done = done.push(ps[i as int]);
                    assert(pair_texts(r@) =~= head + done);
                }
            }
            i = i + 1;
        }
        proof {
            assert(ps.skip(i as int) =~= Seq::<(Seq<char>, Seq<char>)>::empty());
            assert(done + Seq::<(Seq<char>, Seq<char>)>::empty() =~= done);
        }
        r
    }

    /// The WebSocket URL of the gateway with the handshake query pairs
    /// (`vsn`, `token` when set, the extra parameters) appended to the query
    /// that the gateway URL already has; the text before the query and the
    /// fragment stay as the gateway URL has them. A text that is not a URL
    /// gives the kind of error the parser found; where the `url` crate
    /// could not record the query or the fragment of the result (past 4 GB,
    /// `u32::MAX` bytes), the answer is `Overflow`.
    pub fn build_url(&self) -> (r: Result<url::Url, UrlError>)
        ensures
            match url_parse_outcome(self.gateway_url@) {
                Err(e) => r matches Err(f) && f == e,
                Ok(text) => if append_overflows(text, self.handshake_pairs()) {
                    r matches Err(f) && f == UrlError::Overflow
                } else {
                    r matches Ok(u) && url_text(u) == with_pairs_text(text, self.handshake_pairs())
                        && url_query_pairs(url_text(u)) == query_pairs_of(text)
                        + self.handshake_pairs() && url_head(url_text(u)) == url_head(text)
                        && url_fragment(url_text(u)) == url_fragment(text) && byte_len(url_text(u))
                        == appended_len(byte_len(text), separator_len(text), self.handshake_pairs())
                },
            },
    {
        let mut u = match parse_url(self.gateway_url.as_str()) {
            Ok(u) => u,
            Err(e) => return Err(e),
        };
        let ghost text = url_text(u);
        let ghost base = query_pairs_of(text);
        proof {
            lemma_url_positions(text);
        }
        let hs = self.handshake_params();
        let ghost all = pair_texts(hs@);
        let len0 = url_byte_len(&u);
        let mut sep: u64 = match url_query(&u) {
            Some(q) => if q.unicode_len() == 0 {
                0
            } else {
                1
            },
            None => {
                if len0 > 0xffff_ffff {
                    return Err(UrlError::Overflow);
                }
                1
            },
        };
        let fragment = url_fragment_text(&u).is_some();
        let mut i: usize = 0;
        proof {
            assert(all.skip(0) =~= all);
            assert(base + all.take(0) =~= url_query_pairs(text));
        }
        while i < hs.len()
            invariant
                i <= hs.len(),
                all == pair_texts(hs@),
                all == self.handshake_pairs(),
                all.len() >= 1,
                url_parse_outcome(self.gateway_url@) == Ok::<Seq<char>, UrlError>(text),
                fragment == has_fragment(text),
                i == 0 ==> url_text(u) == text,
                sep == separator_len(url_text(u)),
                !has_query(url_text(u)) ==> byte_len(url_text(u)) <= u32::MAX,
                !has_query(text) ==> byte_len(text) <= u32::MAX,
                fragment && i > 0 ==> byte_len(url_text(u)) <= u32::MAX,
                appended_len(byte_len(url_text(u)), sep as nat, all.skip(i as int)) == appended_len(
                    byte_len(text),
                    separator_len(text),
                    all,
                ),
                url_query_pairs(url_text(u)) == base + all.take(i as int),
                with_pairs_text(url_text(u), all.skip(i as int)) == with_pairs_text(text, all),
                url_head(url_text(u)) == url_head(text),
                url_fragment(url_text(u)) == url_fragment(text),
            decreases hs.len() - i,
        {
            let p = &hs[i];
            let ghost current = url_text(u);
            proof {
                assert(all[i as int] == (p.0@, p.1@));
                assert(all.skip(i as int)[0] == all[i as int]);
                assert(all.skip(i as int).drop_first() =~= all.skip(i + 1));
                lemma_appended_len_grows(
                    (byte_len(current) + sep + pair_growth(p.0@, p.1@)) as nat,
                    1,
                    all.skip(i + 1),
                );
            }
            if fragment {
                let len = url_byte_len(&u);
                let name_len = form_encoded_len(p.0.as_str());
                let value_len = form_encoded_len(p.1.as_str());
                let fits = match (name_len, value_len) {
                    (Some(a), Some(b)) => len <= 0xffff_ffff && len as u64 + sep + a + 1 + b
                        <= 0xffff_ffff,
                    _ => false,
                };
                if !fits {
                    return Err(UrlError::Overflow);
                }
            }
            append_query_pair(&mut u, p.0.as_str(), p.1.as_str());
            proof {
                assert(base + all.take(i + 1) =~= (base + all.take(i as int)).push(all[i as int]));
            }
            sep = 1;
            i = i + 1;
        }
        proof {
            assert(all.take(hs.len() as int) =~= all);
            assert(all.skip(hs.len() as int) =~= Seq::<(Seq<char>, Seq<char>)>::empty());
        }
        Ok(u)
    }
}

/// The places in a URL's text where its query and fragment start are in
/// order and within the text.
proof fn lemma_url_positions(t: Seq<char>)
    ensures
        head_len(t) <= fragment_start(t) <= t.len(),
    decreases t.len(),
{
    if t.len() > 0 && t[0] != '#' {
        lemma_url_positions(t.drop_first());
    }
}

/// Appending pairs never shortens a text.
proof fn lemma_appended_len_grows(len: nat, sep: nat, pairs: Seq<(Seq<char>, Seq<char>)>)
    ensures
        appended_len(len, sep, pairs) >= len,
    decreases pairs.len(),
{
    if pairs.len() > 0 {
        lemma_appended_len_grows(
            len + sep + pair_growth(pairs[0].0, pairs[0].1),
            1,
            pairs.drop_first(),
        );
    }
}

/// The handshake sends the extra parameters as the map they stand for:
/// each name of the map once, with the value the map gives it, and no
/// other name.
pub proof fn lemma_sent_params_are_the_map(params: Seq<(String, String)>)
    ensures
        forall|a: int, b: int|
            0 <= a < b < last_of_each(pair_texts(params)).len() ==> (#[trigger] last_of_each(
                pair_texts(params),
            )[a]).0 != (#[trigger] last_of_each(pair_texts(params))[b]).0,
        forall|k: int|
            0 <= k < last_of_each(pair_texts(params)).len() ==> param_map(params).dom().contains(
                (#[trigger] last_of_each(pair_texts(params))[k]).0,
            ) && param_map(params)[last_of_each(pair_texts(params))[k].0] == last_of_each(
                pair_texts(params),
            )[k].1,
        forall|n: Seq<char>| #[trigger]
            param_map(params).dom().contains(n) ==> exists|k: int|
                0 <= k < last_of_each(pair_texts(params)).len() && (#[trigger] last_of_each(
                    pair_texts(params),
                )[k]).0 == n,
{
    let ps = pair_texts(params);
    let l = last_of_each(ps);
    lemma_last_of_each_source(ps);
    lemma_last_of_each_keeps(ps);
    lemma_last_of_each_distinct(ps);
    assert forall|k: int| 0 <= k < l.len() implies param_map(params).dom().contains(
        (#[trigger] l[k]).0,
    ) && param_map(params)[l[k].0] == l[k].1 by {
        let i = choose|i: int| 0 <= i < ps.len() && l[k] == ps[i] && !name_occurs_later(ps, i);
        assert forall|j: int| i < j < params.len() implies (#[trigger] params[j]).0@ != l[k].0 by {
            if params[j].0@ == l[k].0 {
                assert(ps[j].0 == ps[i].0);
            }
        }
        lemma_param_map_lookup(params, l[k].0, i);
    }
    assert forall|n: Seq<char>| #[trigger] param_map(params).dom().contains(n) implies exists|k: int|
        0 <= k < l.len() && (#[trigger] l[k]).0 == n by {
        if forall|i: int| 0 <= i < params.len() ==> (#[trigger] params[i]).0@ != n {
            lemma_param_map_lookup(params, n, -1);
        }
        let i = choose|i: int| 0 <= i < params.len() && (#[trigger] params[i]).0@ == n;
        assert(ps[i].0 == n);
        lemma_last_with_name(ps, i);
        let m = choose|m: int| 0 <= m < ps.len() && ps[m].0 == n && !name_occurs_later(ps, m);
        let k = choose|k: int| 0 <= k < l.len() && l[k] == ps[m];
        assert(l[k].0 == n);
    }
}

/// Whether a later pair overrides one is the same in a list and in the
/// list without its first pair.
proof fn lemma_later_shift(ps: Seq<(Seq<char>, Seq<char>)>)
    requires
        ps.len() > 0,
    ensures
        forall|i: int|
            0 <= i < ps.len() - 1 ==> #[trigger] name_occurs_later(ps.drop_first(), i)
                == name_occurs_later(ps, i + 1),
{
    let r = ps.drop_first();
    assert forall|i: int| 0 <= i < ps.len() - 1 implies #[trigger] name_occurs_later(r, i)
        == name_occurs_later(ps, i + 1) by {
        if name_occurs_later(r, i) {
            let j = choose|j: int| i < j < r.len() && (#[trigger] r[j]).0 == r[i].0;
            assert(ps[j + 1] == r[j]);
        }
        if name_occurs_later(ps, i + 1) {
            let j = choose|j: int| i + 1 < j < ps.len() && (#[trigger] ps[j]).0 == ps[i + 1].0;
            assert(r[j - 1] == ps[j]);
        }
    }
}

/// Every pair that `last_of_each` keeps is a pair of the list that no
/// later pair overrides.
proof fn lemma_last_of_each_source(ps: Seq<(Seq<char>, Seq<char>)>)
    ensures
        forall|k: int|
            0 <= k < last_of_each(ps).len() ==> exists|i: int|
                0 <= i < ps.len() && #[trigger] last_of_each(ps)[k] == ps[i] && !name_occurs_later(
                    ps,
                    i,
                ),
    decreases ps.len(),
{
    if ps.len() > 0 {
        let r = ps.drop_first();
        let lr = last_of_each(r);
        let l = last_of_each(ps);
        lemma_last_of_each_source(r);
        lemma_later_shift(ps);
        let off: int = if name_occurs_later(ps, 0) { 0 } else { 1 };
        assert forall|k: int| 0 <= k < l.len() implies exists|i: int|
            0 <= i < ps.len() && #[trigger] l[k] == ps[i] && !name_occurs_later(ps, i) by {
            if off == 1 && k == 0 {
                assert(l[0] == ps[0]);
            } else {
                assert(l[k] == lr[k - off]);
                let i = choose|i: int| 0 <= i < r.len() && lr[k - off] == r[i] && !name_occurs_later(r, i);
                assert(name_occurs_later(r, i) == name_occurs_later(ps, i + 1));
                assert(l[k] == ps[i + 1]);
            }
        }
    }
}

/// Every pair that no later pair overrides is kept by `last_of_each`.
proof fn lemma_last_of_each_keeps(ps: Seq<(Seq<char>, Seq<char>)>)
    ensures
        forall|i: int|
            0 <= i < ps.len() && !name_occurs_later(ps, i) ==> exists|k: int|
                0 <= k < last_of_each(ps).len() && #[trigger] last_of_each(ps)[k] == ps[i],
    decreases ps.len(),
{
    if ps.len() > 0 {
        let r = ps.drop_first();
        let lr = last_of_each(r);
        let l = last_of_each(ps);
        lemma_last_of_each_keeps(r);
        lemma_later_shift(ps);
        let off: int = if name_occurs_later(ps, 0) { 0 } else { 1 };
        assert forall|i: int| 0 <= i < ps.len() && !name_occurs_later(ps, i) implies exists|k: int|
            0 <= k < l.len() && #[trigger] l[k] == ps[i] by {
            if i == 0 {
                assert(l[0] == ps[0]);
            } else {
                assert(ps[i] == r[i - 1]);
                assert(name_occurs_later(r, i - 1) == name_occurs_later(ps, i));
                let k = choose|k: int| 0 <= k < lr.len() && #[trigger] lr[k] == r[i - 1];
                assert(l[k + off] == lr[k]);
                assert(l[k + off] == ps[i]);
            }
        }
    }
}

/// The pairs that `last_of_each` keeps have distinct names.
proof fn lemma_last_of_each_distinct(ps: Seq<(Seq<char>, Seq<char>)>)
    ensures
        forall|a: int, b: int|
            0 <= a < b < last_of_each(ps).len() ==> (#[trigger] last_of_each(ps)[a]).0 != (
            #[trigger] last_of_each(ps)[b]).0,
    decreases ps.len(),
{
    if ps.len() > 0 {
        let r = ps.drop_first();
        let lr = last_of_each(r);
        let l = last_of_each(ps);
        lemma_last_of_each_distinct(r);
        lemma_last_of_each_source(r);
        let off: int = if name_occurs_later(ps, 0) { 0 } else { 1 };
        assert forall|a: int, b: int| 0 <= a < b < l.len() implies (#[trigger] l[a]).0 != (
        #[trigger] l[b]).0 by {
            if off == 1 && a == 0 {
                assert(l[b] == lr[b - 1]);
                let i = choose|i: int| 0 <= i < r.len() && lr[b - 1] == r[i] && !name_occurs_later(r, i);
                assert(r[i] == ps[i + 1]);
                assert(l[0] == ps[0]);
                if l[a].0 == l[b].0 {
                    assert(ps[i + 1].0 == ps[0].0);
                    assert(name_occurs_later(ps, 0));
                }
            } else {
                assert(l[a] == lr[a - off]);
                assert(l[b] == lr[b - off]);
            }
        }
    }
}

/// A pair has a last pair of its name at or after it.
proof fn lemma_last_with_name(ps: Seq<(Seq<char>, Seq<char>)>, i: int)
    requires
        0 <= i < ps.len(),
    ensures
        exists|m: int| 0 <= m < ps.len() && ps[m].0 == ps[i].0 && !name_occurs_later(ps, m),
    decreases ps.len() - i,
{
    if name_occurs_later(ps, i) {
        let j = choose|j: int| i < j < ps.len() && (#[trigger] ps[j]).0 == ps[i].0;
        lemma_last_with_name(ps, j);
    } else {
        assert(ps[i].0 == ps[i].0);
    }
}

/// A name maps to the value of its last entry; a name that no entry has is
/// not in the map.
proof fn lemma_param_map_lookup(params: Seq<(String, String)>, name: Seq<char>, k: int)
    requires
        -1 <= k < params.len(),
        k >= 0 ==> params[k].0@ == name,
        forall|j: int| k < j < params.len() ==> (#[trigger] params[j]).0@ != name,
    ensures
        k >= 0 ==> param_map(params).dom().contains(name) && param_map(params)[name] == params[k].1@,
        k < 0 ==> !param_map(params).dom().contains(name),
    decreases params.len(),
{
    if params.len() > 0 {
        let rest = params.drop_last();
        let last = params[params.len() - 1];
        assert(params.last() == last);
        assert(param_map(params) == param_map(rest).insert(last.0@, last.1@));
        if k < params.len() - 1 {
            assert(last.0@ != name);
            assert forall|j: int| k < j < rest.len() implies (#[trigger] rest[j]).0@ != name by {
                assert(rest[j] == params[j]);
            }
            if k >= 0 {
                assert(rest[k] == params[k]);
            }
            lemma_param_map_lookup(rest, name, k);
        }
    }
}

/// The handshake query starts with `vsn` and its version, follows it with
/// `token` and the token whenever one is set, whatever the extra parameters
/// are, and ends with the extra parameters as the map holds them.
pub proof fn lemma_handshake_order(o: GliaOptions)
    ensures
        o.handshake_pairs()[0] == ("vsn"@, o.vsn@),
        o.token matches Some(t) ==> o.handshake_pairs()[1] == ("token"@, t@) && o.handshake_pairs().skip(2)
            == last_of_each(pair_texts(o.params@)) && o.handshake_pairs().len() == 2 + last_of_each(
            pair_texts(o.params@),
        ).len(),
        o.token is None ==> o.handshake_pairs().skip(1) == last_of_each(pair_texts(o.params@))
            && o.handshake_pairs().len() == 1 + last_of_each(pair_texts(o.params@)).len(),
{
    let extra = last_of_each(pair_texts(o.params@));
    match o.token {
        Some(t) => {
            assert(o.handshake_pairs() =~= seq![("vsn"@, o.vsn@), ("token"@, t@)] + extra);
            assert(o.handshake_pairs().skip(2) =~= extra);
        },
        None => {
            assert(o.handshake_pairs() =~= seq![("vsn"@, o.vsn@)] + extra);
            assert(o.handshake_pairs().skip(1) =~= extra);
        },
    }
}

/// Setting the value of the entry at `k`, whose name is `name` and the
/// last of that name, sets the value of `name` in the map.
proof fn lemma_param_map_update(params: Seq<(String, String)>, k: int, name: Seq<char>, value: Seq<char>)
    requires
        0 <= k < params.len(),
        params[k].0@ == name,
        forall|j: int| k < j < params.len() ==> (#[trigger] params[j]).0@ != name,
    ensures
        forall|n: String, v: String|
            n@ == name && v@ == value ==> #[trigger] param_map(params.update(k, (n, v)))
                == param_map(params).insert(name, value),
    decreases params.len(),
{
    assert forall|n: String, v: String|
        n@ == name && v@ == value implies #[trigger] param_map(params.update(k, (n, v)))
            == param_map(params).insert(name, value) by {
        let upd = params.update(k, (n, v));
        let rest = params.drop_last();
        let last = params[params.len() - 1];
        assert(params.last() == last);
        assert(upd.last() == upd[upd.len() - 1]);
        assert(param_map(params) == param_map(rest).insert(last.0@, last.1@));
        assert(param_map(upd) == param_map(upd.drop_last()).insert(
            upd[upd.len() - 1].0@,
            upd[upd.len() - 1].1@,
        ));
        if k == params.len() - 1 {
            assert(upd.drop_last() =~= rest);
            assert(param_map(upd) =~= param_map(params).insert(name, value));
        } else {
            assert(upd.drop_last() =~= rest.update(k, (n, v)));
            assert(upd[upd.len() - 1] == last);
            assert forall|j: int| k < j < rest.len() implies (#[trigger] rest[j]).0@ != name by {
                assert(rest[j] == params[j]);
            }
            assert(rest[k] == params[k]);
            lemma_param_map_update(rest, k, name, value);
            assert(last.0@ != name);
            assert(param_map(upd) =~= param_map(params).insert(name, value));
        }
    }
}

impl Default for GliaOptions {
    /// The local development gateway for the `default` application and the
    /// `system` user, with every other setting at its default.
    fn default() -> (r: GliaOptions)
        ensures
            r.gateway_url@ == "ws://localhost:4003/socket/websocket"@,
            r.app_id@ == "default"@,
            r.user_id@ == "system"@,
            r.has_default_settings(),
    {
        GliaOptions::new("ws://localhost:4003/socket/websocket", "default", "system")
    }
}

} // verus!
