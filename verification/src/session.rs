//! The session with the NAS: where requests go, how the login request is
//! formed, what a login answer means, and how the session id rides along
//! on later requests.
use base64::Engine;
use vstd::prelude::*;

use crate::config::{base_url, base_url_of, Config, ConfigError};
use crate::text::{chars_of, push_char};
use vstd::utf8::{encode_scalar, encode_utf8};
use crate::xml::{extract_xml_value, xml_value, xml_value_or_empty, extract_xml_value_or_empty};

verus! {

broadcast use vstd::string::group_string_axioms;

/// The base64 alphabet of RFC 4648: `A`–`Z`, `a`–`z`, `0`–`9`, `+`, `/`.
pub open spec fn base64_alphabet() -> Seq<char> {
    seq!['A', 'B', 'C', 'D', 'E', 'F', 'G', 'H', 'I', 'J', 'K', 'L', 'M', 'N', 'O', 'P', 'Q', 'R', 'S', 'T', 'U', 'V', 'W', 'X', 'Y', 'Z', 'a', 'b', 'c', 'd', 'e', 'f', 'g', 'h', 'i', 'j', 'k', 'l', 'm', 'n', 'o', 'p', 'q', 'r', 's', 't', 'u', 'v', 'w', 'x', 'y', 'z', '0', '1', '2', '3', '4', '5', '6', '7', '8', '9', '+', '/']
}

/// The base64 digit of a six-bit value.
pub open spec fn base64_digit(n: int) -> char {
    base64_alphabet()[n]
}

/// The standard (RFC 4648, padded) base64 text of `bytes`: each group of
/// three bytes becomes four digits; a last group of one or two bytes is
/// padded with `=` to four characters.
pub open spec fn base64_standard(bytes: Seq<u8>) -> Seq<char>
    decreases bytes.len(),
{
    if bytes.len() == 0 {
        seq![]
    } else if bytes.len() == 1 {
        let n = bytes[0] as int;
        seq![base64_digit(n / 4), base64_digit((n % 4) * 16), '=', '=']
    } else if bytes.len() == 2 {
        let n = bytes[0] as int * 256 + bytes[1] as int;
        seq![base64_digit(n / 1024), base64_digit((n / 16) % 64), base64_digit((n % 16) * 4), '=']
    } else {
        let n = bytes[0] as int * 65536 + bytes[1] as int * 256 + bytes[2] as int;
        seq![
            base64_digit(n / 262144),
            base64_digit((n / 4096) % 64),
            base64_digit((n / 64) % 64),
            base64_digit(n % 64),
        ] + base64_standard(bytes.skip(3))
    }
}

/// Calls `base64::engine::general_purpose::STANDARD.encode`, the padded
/// standard alphabet of RFC 4648; its result is taken to be
/// `base64_standard` of the bytes. The bound keeps the length computation
/// inside `encode` from overflowing, where it would panic.
#[verifier::external_body]
fn base64_encode(bytes: &[u8]) -> (res: String)
    requires
        bytes@.len() / 3 * 4 + 4 <= usize::MAX,
    ensures
        res@ == base64_standard(bytes@),
{
    base64::engine::general_purpose::STANDARD.encode(bytes)
}

/// The form of the login request, the password already base64 encoded.
pub open spec fn login_form_spec(username: Seq<char>, encoded_password: Seq<char>) -> Seq<
    (Seq<char>, Seq<char>),
> {
    seq![
        ("user"@, username),
        ("pwd"@, encoded_password),
        ("serviceKey"@, "1"@),
        ("client_app"@, "qnap-cli"@),
    ]
}

/// The form of the login request for an already encoded password.
pub fn login_form_encoded(username: &str, encoded_password: &str) -> (res: Vec<(String, String)>)
    ensures
        res.deep_view() == login_form_spec(username@, encoded_password@),
{
    let mut form: Vec<(String, String)> = Vec::new();
    form.push((String::from_str("user"), String::from_str(username)));
    form.push((String::from_str("pwd"), String::from_str(encoded_password)));
    form.push((String::from_str("serviceKey"), String::from_str("1")));
    form.push((String::from_str("client_app"), String::from_str("qnap-cli")));
    assert(form.deep_view() == login_form_spec(username@, encoded_password@));
    form
}

/// The form of the login request: the password travels base64 encoded.
pub fn login_form(username: &str, password: &str) -> (res: Vec<(String, String)>)
    requires
        vstd::utf8::encode_utf8(password@).len() / 3 * 4 + 4 <= usize::MAX,
    ensures
        res.deep_view() == login_form_spec(username@, base64_standard(vstd::utf8::encode_utf8(password@))),
{
    let encoded = base64_encode(password.as_bytes());
    login_form_encoded(username, encoded.as_str())
}

/// Why a login answer does not grant a session.
#[derive(Debug)]
pub enum LoginError {
    /// `authPassed` is not `1`; `error_value` is the NAS's `errorValue`.
    AuthFailed { error_value: String },
    /// The login passed but the answer names no `authSid`; `excerpt` is the
    /// beginning of the answer, at most 1000 bytes of it in UTF-8, ending at
    /// a character boundary.
    MissingSid { excerpt: String },
}

/// The model of a [`LoginError`].
pub enum LoginErrorView {
    AuthFailed { error_value: Seq<char> },
    MissingSid { excerpt: Seq<char> },
}

impl View for LoginError {
    type V = LoginErrorView;

    open spec fn view(&self) -> LoginErrorView {
        match self {
            LoginError::AuthFailed { error_value } => LoginErrorView::AuthFailed {
                error_value: error_value@,
            },
            LoginError::MissingSid { excerpt } => LoginErrorView::MissingSid { excerpt: excerpt@ },
        }
    }
}

/// How many characters of `s`, from the `k`-th on, still fit: characters
/// are taken while the UTF-8 encoding of the prefix stays within 1000 bytes.
pub open spec fn excerpt_len_from(s: Seq<char>, k: nat) -> nat
    decreases s.len() - k,
{
    if k < s.len() && encode_utf8(s.take((k + 1) as int)).len() <= 1000 {
        excerpt_len_from(s, k + 1)
    } else {
        k
    }
}

/// The beginning of a login answer shown with an error: its longest prefix
/// whose UTF-8 encoding has at most 1000 bytes.
pub open spec fn excerpt(body: Seq<char>) -> Seq<char> {
    body.take(excerpt_len_from(body, 0) as int)
}

/// Appending a character appends its UTF-8 bytes.
proof fn lemma_encode_utf8_push(a: Seq<char>, c: char)
    ensures
        encode_utf8(a.push(c)) == encode_utf8(a) + encode_scalar(c as u32),
    decreases a.len(),
{
    if a.len() == 0 {
        assert(a.push(c).drop_first() == a);
        assert(encode_utf8(a) == Seq::<u8>::empty());
    } else {
        assert(a.push(c).drop_first() == a.drop_first().push(c));
        lemma_encode_utf8_push(a.drop_first(), c);
    }
}

/// The UTF-8 bytes of a prefix never decrease as the prefix grows.
proof fn lemma_encode_utf8_prefix_grows(s: Seq<char>, j: int, k: int)
    requires
        0 <= j <= k <= s.len(),
    ensures
        encode_utf8(s.take(j)).len() <= encode_utf8(s.take(k)).len(),
    decreases k - j,
{
    if j < k {
        lemma_encode_utf8_prefix_grows(s, j, k - 1);
        assert(s.take(k) == s.take(k - 1).push(s[k - 1]));
        lemma_encode_utf8_push(s.take(k - 1), s[k - 1]);
    }
}

/// The excerpt is the longest prefix within 1000 bytes: it fits, and one
/// more character would not.
pub proof fn lemma_excerpt_is_longest_fit(body: Seq<char>, k: nat)
    requires
        k <= body.len(),
        encode_utf8(body.take(k as int)).len() <= 1000,
    ensures
        k <= excerpt(body).len(),
        encode_utf8(excerpt(body)).len() <= 1000,
        excerpt(body).len() < body.len() ==> encode_utf8(
            body.take((excerpt(body).len() + 1) as int),
        ).len() > 1000,
{
    lemma_excerpt_len_from(body, 0, k);
}

/// What `excerpt_len_from` finds, from `j` on.
proof fn lemma_excerpt_len_from(s: Seq<char>, j: nat, k: nat)
    requires
        j <= s.len(),
        k <= s.len(),
        encode_utf8(s.take(j as int)).len() <= 1000,
        encode_utf8(s.take(k as int)).len() <= 1000,
    ensures
        j <= excerpt_len_from(s, j) <= s.len(),
        k <= excerpt_len_from(s, j),
        encode_utf8(s.take(excerpt_len_from(s, j) as int)).len() <= 1000,
        excerpt_len_from(s, j) < s.len() ==> encode_utf8(
            s.take((excerpt_len_from(s, j) + 1) as int),
        ).len() > 1000,
    decreases s.len() - j,
{
    if j < s.len() && encode_utf8(s.take((j + 1) as int)).len() <= 1000 {
        lemma_excerpt_len_from(s, j + 1, k);
    } else if j < k {
        lemma_encode_utf8_prefix_grows(s, (j + 1) as int, k as int);
    }
}

/// The number of UTF-8 bytes of `c`.
fn utf8_width(c: char) -> (w: usize)
    ensures
        w == encode_scalar(c as u32).len(),
{
    proof {
        vstd::utf8::char_is_scalar(c);
    }
    let u = c as u32;
    if u < 0x80 {
        1
    } else if u < 0x800 {
        2
    } else if u < 0x10000 {
        3
    } else {
        4
    }
}

/// What a login answer means: the session id when `authPassed` is `1` and
/// an `authSid` is present, an error otherwise.
pub open spec fn login_outcome(body: Seq<char>) -> Result<Seq<char>, LoginErrorView> {
    if xml_value_or_empty(body, "authPassed"@) != seq!['1'] {
        Err(LoginErrorView::AuthFailed { error_value: xml_value_or_empty(body, "errorValue"@) })
    } else {
        match xml_value(body, "authSid"@) {
            Some(sid) => Ok(sid),
            None => Err(LoginErrorView::MissingSid { excerpt: excerpt(body) }),
        }
    }
}

/// Read the answer to a login request.
pub fn check_login_response(body: &str) -> (res: Result<String, LoginError>)
    ensures
        match res {
            Ok(sid) => login_outcome(body@) == Ok::<Seq<char>, LoginErrorView>(sid@),
            Err(e) => login_outcome(body@) == Err::<Seq<char>, LoginErrorView>(e@),
        },
{
    let passed = extract_xml_value_or_empty(body, "authPassed");
    let pv = chars_of(passed.as_str());
    if !(pv.len() == 1 && pv[0] == '1') {
        assert(passed@ != seq!['1']);
        let error_value = extract_xml_value_or_empty(body, "errorValue");
        return Err(LoginError::AuthFailed { error_value });
    }
    assert(passed@ == seq!['1']);
    match extract_xml_value(body, "authSid") {
        Some(sid) => Ok(sid),
        None => {
            let b = chars_of(body);
            let mut excerpt = String::new();
            let mut used: usize = 0;
            let mut k: usize = 0;
            assert(b@.take(0) == Seq::<char>::empty());
            loop
                invariant
                    k <= b.len(),
                    b@ == body@,
                    used == encode_utf8(b@.take(k as int)).len(),
                    used <= 1000,
                    excerpt@ == b@.take(k as int),
                    excerpt_len_from(b@, 0) == excerpt_len_from(b@, k as nat),
                ensures
                    excerpt@ == crate::session::excerpt(body@),
                decreases b.len() - k,
            {
                if k >= b.len() {
                    break;
                }
                let w = utf8_width(b[k]);
                proof {
                    assert(b@.take(k + 1) == b@.take(k as int).push(b@[k as int]));
                    lemma_encode_utf8_push(b@.take(k as int), b@[k as int]);
                }
                if used + w > 1000 {
                    break;
                }
                push_char(&mut excerpt, b[k]);
                used = used + w;
                k = k + 1;
            }
            Err(LoginError::MissingSid { excerpt })
        },
    }
}

/// A session with the NAS: where requests go and, once logged in, the
/// session id they carry.
#[derive(Debug)]
pub struct Session {
    pub base_url: String,
    pub sid: Option<String>,
}

/// The model of a [`Session`].
pub struct SessionView {
    pub base_url: Seq<char>,
    pub sid: Option<Seq<char>>,
}

impl View for Session {
    type V = SessionView;

    open spec fn view(&self) -> SessionView {
        SessionView { base_url: self.base_url@, sid: self.sid.deep_view() }
    }
}

/// The session after a login answer: the session id it grants, or the
/// session unchanged when it grants none.
pub open spec fn after_login(s: SessionView, body: Seq<char>) -> SessionView {
    match login_outcome(body) {
        Ok(sid) => SessionView { base_url: s.base_url, sid: Some(sid) },
        Err(_) => s,
    }
}

/// The query of a request: its own parameters, then the session id (empty
/// before login).
pub open spec fn query_spec(s: SessionView, params: Seq<(Seq<char>, Seq<char>)>) -> Seq<
    (Seq<char>, Seq<char>),
> {
    params.push(
        (
            "sid"@,
            match s.sid {
                Some(sid) => sid,
                None => Seq::empty(),
            },
        ),
    )
}

impl Session {
    /// A session, not logged in yet, with the NAS that `config` names.
    pub fn new(config: &Config) -> (res: Result<Session, ConfigError>)
        ensures
            match res {
                Ok(s) => config@.host matches Some(h) && s@ == SessionView {
                    base_url: base_url_of(h),
                    sid: None,
                },
                Err(e) => config@.host is None && e == ConfigError::MissingHost,
            },
    {
        let host = config.host()?;
        Ok(Session { base_url: base_url(host), sid: None })
    }

    /// The address of a request to `path`.
    pub fn url(&self, path: &str) -> (res: String)
        ensures
            res@ == self.base_url@ + path@,
    {
        let mut u = self.base_url.clone();
        u.append(path);
        u
    }

    /// The address of the login request.
    pub fn login_url(&self) -> (res: String)
        ensures
            res@ == self.base_url@ + "/cgi-bin/authLogin.cgi"@,
    {
        self.url("/cgi-bin/authLogin.cgi")
    }

    /// Take in the answer to a login request; on success the session keeps
    /// the session id, which is also returned.
    pub fn record_login(&mut self, body: &str) -> (res: Result<String, LoginError>)
        ensures
            final(self)@ == after_login(old(self)@, body@),
            match res {
                Ok(sid) => login_outcome(body@) == Ok::<Seq<char>, LoginErrorView>(sid@),
                Err(e) => login_outcome(body@) == Err::<Seq<char>, LoginErrorView>(e@),
            },
    {
        let res = check_login_response(body);
        if let Ok(sid) = &res {
            self.sid = Some(sid.clone());
        }
        res
    }

    /// The query of a request with parameters `params`: the session id is appended.
    pub fn query(&self, params: &Vec<(String, String)>) -> (res: Vec<(String, String)>)
        ensures
            res.deep_view() == query_spec(self@, params.deep_view()),
    {
        let mut all: Vec<(String, String)> = Vec::new();
        let mut k: usize = 0;
        while k < params.len()
            invariant
                k <= params.len(),
                all.deep_view() == params.deep_view().take(k as int),
            decreases params.len() - k,
        {
            let (key, value) = &params[k];
            all.push((key.clone(), value.clone()));
            assert(params.deep_view().take(k + 1) == params.deep_view().take(k as int).push(
                params.deep_view()[k as int],
            ));
            k = k + 1;
        }
        assert(params.deep_view().take(params.len() as int) == params.deep_view());
        let sid = match &self.sid {
            Some(s) => s.clone(),
            None => String::new(),
        };
        all.push((String::from_str("sid"), sid));
        all
    }
}

/// After a login that the NAS grants, every request carries the session id
/// that the login returned, as its last query parameter.
pub proof fn law_requests_carry_login_sid(
    s: SessionView,
    body: Seq<char>,
    params: Seq<(Seq<char>, Seq<char>)>,
)
    requires
        login_outcome(body) is Ok,
    ensures
        query_spec(after_login(s, body), params).last() == ("sid"@, login_outcome(body)->Ok_0),
        query_spec(after_login(s, body), params).drop_last() == params,
{
}

/// A refused login leaves the session as it was.
pub proof fn law_refused_login_keeps_session(s: SessionView, body: Seq<char>)
    requires
        login_outcome(body) is Err,
    ensures
        after_login(s, body) == s,
{
}

/// The session after a series of login answers, taken in order.
pub open spec fn after_logins(s: SessionView, bodies: Seq<Seq<char>>) -> SessionView
    decreases bodies.len(),
{
    if bodies.len() == 0 {
        s
    } else {
        after_login(after_logins(s, bodies.drop_last()), bodies.last())
    }
}

/// The session id granted by the last of `bodies` that grants one, or
/// `initial` when none does.
pub open spec fn last_granted_sid(initial: Option<Seq<char>>, bodies: Seq<Seq<char>>) -> Option<
    Seq<char>,
>
    decreases bodies.len(),
{
    if bodies.len() == 0 {
        initial
    } else {
        match login_outcome(bodies.last()) {
            Ok(sid) => Some(sid),
            Err(_) => last_granted_sid(initial, bodies.drop_last()),
        }
    }
}

/// Over any series of logins, a request carries, as its last query
/// parameter, the session id of the last login the NAS granted (empty when
/// none was ever granted), after its own parameters; refused logins change
/// nothing, and the base address stays the same.
pub proof fn law_requests_carry_last_granted_sid(
    s: SessionView,
    bodies: Seq<Seq<char>>,
    params: Seq<(Seq<char>, Seq<char>)>,
)
    ensures
        after_logins(s, bodies).base_url == s.base_url,
        after_logins(s, bodies).sid == last_granted_sid(s.sid, bodies),
        query_spec(after_logins(s, bodies), params) == params.push(
            (
                "sid"@,
                match last_granted_sid(s.sid, bodies) {
                    Some(sid) => sid,
                    None => Seq::empty(),
                },
            ),
        ),
    decreases bodies.len(),
{
    if bodies.len() > 0 {
        law_requests_carry_last_granted_sid(s, bodies.drop_last(), params);
    }
}

/// The message for a login request that could not be sent: a certificate
/// problem suggests `--insecure`, anything else means the NAS was not reached.
pub open spec fn send_error_message(err: Seq<char>) -> Seq<char> {
    if crate::text::contains(err, "certificate"@) || crate::text::contains(err, "validity"@) {
        "TLS certificate error — retry with `--insecure` to skip verification\n  ("@ + err + ")"@
    } else {
        "failed to reach NAS: "@ + err
    }
}

/// Describe why a login request could not be sent.
pub fn send_error_message_for(err: &str) -> (res: String)
    ensures
        res@ == send_error_message(err@),
{
    if crate::text::str_contains(err, "certificate") || crate::text::str_contains(err, "validity") {
        let mut m = String::from_str(
            "TLS certificate error — retry with `--insecure` to skip verification\n  (",
        );
        m.append(err);
        m.append(")");
        m
    } else {
        let mut m = String::from_str("failed to reach NAS: ");
        m.append(err);
        m
    }
}

impl LoginError {
    /// What went wrong with the login, for the user.
    pub fn message(&self) -> (res: String)
        ensures
            res@ == match self@ {
                LoginErrorView::AuthFailed { error_value } => "authentication failed (errorValue="@
                    + error_value + ")"@,
                LoginErrorView::MissingSid { excerpt } => "login succeeded but no authSid in response\n\nRaw response:\n"@
                    + excerpt,
            },
    {
        match self {
            LoginError::AuthFailed { error_value } => {
                let mut m = String::from_str("authentication failed (errorValue=");
                m.append(error_value.as_str());
                m.append(")");
                m
            },
            LoginError::MissingSid { excerpt } => {
                let mut m = String::from_str(
                    "login succeeded but no authSid in response\n\nRaw response:\n",
                );
                m.append(excerpt.as_str());
                m
            },
        }
    }
}

} // verus!
