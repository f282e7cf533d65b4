//! Connection settings: the saved configuration, the overrides given for a
//! single command, and the normalisation of the NAS address.
use vstd::prelude::*;

use crate::text::{
    chars_of, find_chars, find_from, is_white_space, is_white_space_exec, lemma_find_from,
    lemma_find_from_unique, matches_at, push_char, push_range, trim, trim_bounds, trim_end,
    trim_start, trim_string, has_prefix, matches_at_exec, str_eq,
};

verus! {

broadcast use vstd::string::group_string_axioms;

/// Why a NAS address was refused.
#[derive(Debug, Clone, Copy, PartialEq, Eq, Structural)]
pub enum HostError {
    /// Nothing but white space, or a scheme with no host after it.
    Empty,
    /// `http://`: connections must use HTTPS.
    PlainHttp,
    /// A scheme other than `https://` or `http://`.
    UnsupportedScheme,
}

/// Why the settings do not allow a command to run.
#[derive(Debug, Clone, Copy, PartialEq, Eq, Structural)]
pub enum ConfigError {
    /// No host configured.
    MissingHost,
    /// No username configured.
    MissingUsername,
    /// No password configured.
    MissingPassword,
    /// A username that is empty once trimmed.
    EmptyUsername,
    /// An empty password.
    EmptyPassword,
    /// A host override that is not an acceptable address.
    InvalidHost(HostError),
}

/// `://`
pub open spec fn scheme_separator() -> Seq<char> {
    seq![':', '/', '/']
}

/// `https://`
pub open spec fn https_prefix() -> Seq<char> {
    seq!['h', 't', 't', 'p', 's', ':', '/', '/']
}

/// `http://`
pub open spec fn http_prefix() -> Seq<char> {
    seq!['h', 't', 't', 'p', ':', '/', '/']
}

/// `c` equals the lower-case ASCII character `lower`, ignoring ASCII case.
pub open spec fn char_eq_ignore_case(c: char, lower: char) -> bool {
    c == lower || (97 <= lower as u32 <= 122 && c as u32 + 32 == lower as u32)
}

/// `s` spells the lower-case ASCII word `lower`, ignoring ASCII case.
pub open spec fn eq_ignore_case(s: Seq<char>, lower: Seq<char>) -> bool {
    s.len() == lower.len() && forall|k: int| 0 <= k < s.len() ==> char_eq_ignore_case(
        #[trigger] s[k],
        lower[k],
    )
}

/// Characters dropped from the end of a host: `/` and white space.
pub open spec fn is_host_tail(c: char) -> bool {
    c == '/' || is_white_space(c)
}

/// `s` without trailing `/` and white space.
pub open spec fn trim_host_tail(s: Seq<char>) -> Seq<char>
    decreases s.len(),
{
    if s.len() > 0 && is_host_tail(s.last()) {
        trim_host_tail(s.drop_last())
    } else {
        s
    }
}

/// The host part of a trimmed address: what follows `https://`, or the whole
/// address when it names no scheme.
pub open spec fn host_part(t: Seq<char>) -> Result<Seq<char>, HostError> {
    match find_from(t, scheme_separator(), 0) {
        None => Ok(t),
        Some(i) => {
            let scheme = t.subrange(0, i as int);
            if eq_ignore_case(scheme, seq!['h', 't', 't', 'p', 's']) {
                Ok(t.subrange(i + 3 as int, t.len() as int))
            } else if eq_ignore_case(scheme, seq!['h', 't', 't', 'p']) {
                Err(HostError::PlainHttp)
            } else {
                Err(HostError::UnsupportedScheme)
            }
        },
    }
}

/// The HTTPS base address for what the user typed as the NAS address.
///
/// Surrounding white space is ignored; an address without a scheme gets
/// `https://`; `http://` and other schemes are refused; trailing `/` and
/// white space after the host are dropped; an empty host is refused.
pub open spec fn normalized_host(input: Seq<char>) -> Result<Seq<char>, HostError> {
    let t = trim(input);
    if t.len() == 0 {
        Err(HostError::Empty)
    } else {
        match host_part(t) {
            Err(e) => Err(e),
            Ok(rest) => {
                let host = trim_host_tail(rest);
                if host.len() == 0 {
                    Err(HostError::Empty)
                } else {
                    Ok(https_prefix() + host)
                }
            },
        }
    }
}

/// Does `v[from..from + lower.len()]` spell `lower`, ignoring ASCII case?
fn range_eq_ignore_case(v: &Vec<char>, from: usize, to: usize, lower: &Vec<char>) -> (res: bool)
    requires
        from <= to <= v.len(),
    ensures
        res == eq_ignore_case(v@.subrange(from as int, to as int), lower@),
{
    if to - from != lower.len() {
        return false;
    }
    let ghost s = v@.subrange(from as int, to as int);
    let mut k: usize = 0;
    while k < lower.len()
        invariant
            k <= lower.len(),
            to - from == lower.len(),
            from <= to <= v.len(),
            s == v@.subrange(from as int, to as int),
            forall|m: int| 0 <= m < k ==> char_eq_ignore_case(#[trigger] s[m], lower@[m]),
        decreases lower.len() - k,
    {
        let c = v[from + k];
        let l = lower[k];
        assert(s[k as int] == c);
        let cu = c as u32;
        let lu = l as u32;
        if !(c == l || (97 <= lu && lu <= 122 && cu == lu - 32)) {
            assert(!char_eq_ignore_case(s[k as int], lower@[k as int]));
            return false;
        }
        k = k + 1;
    }
    true
}

/// Turn what the user typed as the NAS address into an HTTPS base address.
pub fn normalize_host_input(input: &str) -> (res: Result<String, HostError>)
    ensures
        match res {
            Ok(h) => normalized_host(input@) == Ok::<Seq<char>, HostError>(h@),
            Err(e) => normalized_host(input@) == Err::<Seq<char>, HostError>(e),
        },
{
    let v = chars_of(input);
    let (a, b) = trim_bounds(&v);
    let ghost t = v@.subrange(a as int, b as int);
    if a == b {
        return Err(HostError::Empty);
    }
    let mut sep: Vec<char> = Vec::new();
    sep.push(':');
    sep.push('/');
    sep.push('/');
    assert(sep@ == scheme_separator());
    // locate the scheme separator inside the trimmed range
    let t_vec = trimmed_copy(&v, a, b);
    assert(t_vec@ == t);
    let mut rest_start: usize = 0;
    match find_chars(&t_vec, &sep, 0) {
        None => {},
        Some(i) => {
            proof {
                lemma_find_from(t, scheme_separator(), 0);
            }
            let mut https: Vec<char> = Vec::new();
            https.push('h');
            https.push('t');
            https.push('t');
            https.push('p');
            https.push('s');
            let mut http: Vec<char> = Vec::new();
            http.push('h');
            http.push('t');
            http.push('t');
            http.push('p');
            assert(https@ == seq!['h', 't', 't', 'p', 's']);
            assert(http@ == seq!['h', 't', 't', 'p']);
            if range_eq_ignore_case(&t_vec, 0, i, &https) {
                rest_start = i + 3;
            } else if range_eq_ignore_case(&t_vec, 0, i, &http) {
                return Err(HostError::PlainHttp);
            } else {
                return Err(HostError::UnsupportedScheme);
            }
        },
    }
    assert(host_part(t) == Ok::<Seq<char>, HostError>(
        t_vec@.subrange(rest_start as int, t_vec.len() as int),
    )) by {
        if rest_start == 0 {
            assert(t_vec@.subrange(0, t_vec.len() as int) == t_vec@);
        }
    }
    // drop trailing '/' and white space
    let ghost rest = t_vec@.subrange(rest_start as int, t_vec.len() as int);
    let mut end = t_vec.len();
    while end > rest_start && (t_vec[end - 1] == '/' || is_white_space_exec(t_vec[end - 1]))
        invariant
            rest_start <= end <= t_vec.len(),
            rest == t_vec@.subrange(rest_start as int, t_vec.len() as int),
            trim_host_tail(rest) == trim_host_tail(t_vec@.subrange(rest_start as int, end as int)),
        decreases end - rest_start,
    {
        assert(t_vec@.subrange(rest_start as int, end as int).drop_last() == t_vec@.subrange(
            rest_start as int,
            end - 1,
        ));
        end = end - 1;
    }
    if end == rest_start {
        return Err(HostError::Empty);
    }
    let mut out = String::new();
    push_char(&mut out, 'h');
    push_char(&mut out, 't');
    push_char(&mut out, 't');
    push_char(&mut out, 'p');
    push_char(&mut out, 's');
    push_char(&mut out, ':');
    push_char(&mut out, '/');
    push_char(&mut out, '/');
    assert(out@ == https_prefix());
    push_range(&mut out, &t_vec, rest_start, end);
    Ok(out)
}

/// A copy of `v[from..to]`.
fn trimmed_copy(v: &Vec<char>, from: usize, to: usize) -> (res: Vec<char>)
    requires
        from <= to <= v.len(),
    ensures
        res@ == v@.subrange(from as int, to as int),
{
    let mut res: Vec<char> = Vec::new();
    let mut k = from;
    while k < to
        invariant
            from <= k <= to <= v.len(),
            res@ == v@.subrange(from as int, k as int),
        decreases to - k,
    {
        res.push(v[k]);
        assert(v@.subrange(from as int, k + 1) == v@.subrange(from as int, k as int).push(
            v@[k as int],
        ));
        k = k + 1;
    }
    res
}

/// What `trim_host_tail` leaves ends in neither `/` nor white space, and is
/// a prefix of its argument.
proof fn lemma_trim_host_tail(s: Seq<char>)
    ensures
        trim_host_tail(s).len() <= s.len(),
        trim_host_tail(s) == s.take(trim_host_tail(s).len() as int),
        trim_host_tail(s).len() > 0 ==> !is_host_tail(trim_host_tail(s).last()),
    decreases s.len(),
{
    if s.len() > 0 && is_host_tail(s.last()) {
        lemma_trim_host_tail(s.drop_last());
        let r = trim_host_tail(s.drop_last());
        assert(s.drop_last().take(r.len() as int) == s.take(r.len() as int));
    } else {
        assert(s.take(s.len() as int) == s);
    }
}

/// Normalising an address that is already normalised changes nothing.
pub proof fn law_normalize_host_idempotent(input: Seq<char>)
    requires
        normalized_host(input) is Ok,
    ensures
        normalized_host(normalized_host(input)->Ok_0) == normalized_host(input),
{
    let t = trim(input);
    let rest = host_part(t)->Ok_0;
    let host = trim_host_tail(rest);
    lemma_trim_host_tail(rest);
    let h = https_prefix() + host;
    assert(normalized_host(input) == Ok::<Seq<char>, HostError>(h));
    // trimming changes nothing
    assert(!is_white_space(h[0]));
    assert(trim_start(h) == h);
    assert(h.last() == host.last());
    assert(trim_end(h) == h);
    assert(trim(h) == h);
    // the scheme separator follows `https`
    assert forall|k: int| 0 <= k < 3 implies #[trigger] h[5 + k] == scheme_separator()[k] by {}
    assert forall|j: int| 0 <= j < 5 implies !matches_at(h, scheme_separator(), j) by {
        assert(h[j + 0] != ':');
    }
    lemma_find_from_unique(h, scheme_separator(), 0, 5);
    assert(h.subrange(0, 5) == seq!['h', 't', 't', 'p', 's']);
    assert(h.subrange(8, h.len() as int) == host);
    assert(host_part(h) == Ok::<Seq<char>, HostError>(host));
    // the host has nothing left to drop at its end
    assert(trim_host_tail(host) == host);
}

/// Saved connection settings.
#[derive(Debug, Clone)]
pub struct Config {
    pub host: Option<String>,
    pub username: Option<String>,
    pub password: Option<String>,
    pub insecure: Option<bool>,
}

/// The model of a [`Config`].
pub struct ConfigView {
    pub host: Option<Seq<char>>,
    pub username: Option<Seq<char>>,
    pub password: Option<Seq<char>>,
    pub insecure: Option<bool>,
}

impl View for Config {
    type V = ConfigView;

    open spec fn view(&self) -> ConfigView {
        ConfigView {
            host: self.host.deep_view(),
            username: self.username.deep_view(),
            password: self.password.deep_view(),
            insecure: self.insecure,
        }
    }
}

impl Default for Config {
    fn default() -> (res: Config)
        ensures
            res.host is None,
            res.username is None,
            res.password is None,
            res.insecure is None,
    {
        Config { host: None, username: None, password: None, insecure: None }
    }
}

impl Config {
    /// The configured host.
    pub fn host(&self) -> (res: Result<&str, ConfigError>)
        ensures
            match res {
                Ok(h) => self@.host == Some(h@),
                Err(e) => self@.host is None && e == ConfigError::MissingHost,
            },
    {
        match &self.host {
            Some(h) => Ok(h.as_str()),
            None => Err(ConfigError::MissingHost),
        }
    }

    /// The configured username.
    pub fn username(&self) -> (res: Result<&str, ConfigError>)
        ensures
            match res {
                Ok(u) => self@.username == Some(u@),
                Err(e) => self@.username is None && e == ConfigError::MissingUsername,
            },
    {
        match &self.username {
            Some(u) => Ok(u.as_str()),
            None => Err(ConfigError::MissingUsername),
        }
    }

    /// The configured password.
    pub fn password(&self) -> (res: Result<&str, ConfigError>)
        ensures
            match res {
                Ok(p) => self@.password == Some(p@),
                Err(e) => self@.password is None && e == ConfigError::MissingPassword,
            },
    {
        match &self.password {
            Some(p) => Ok(p.as_str()),
            None => Err(ConfigError::MissingPassword),
        }
    }

    /// Whether TLS certificate verification is skipped (it is not unless asked for).
    pub fn insecure(&self) -> (res: bool)
        ensures
            res == (self.insecure == Some(true)),
    {
        match self.insecure {
            Some(b) => b,
            None => false,
        }
    }
}

/// `s` without trailing `/`.
pub open spec fn trim_end_slashes(s: Seq<char>) -> Seq<char>
    decreases s.len(),
{
    if s.len() > 0 && s.last() == '/' {
        trim_end_slashes(s.drop_last())
    } else {
        s
    }
}

/// The host names its scheme: it starts with `http://` or `https://`.
pub open spec fn names_scheme(host: Seq<char>) -> bool {
    has_prefix(host, http_prefix()) || has_prefix(host, https_prefix())
}

/// The base address requests go to for a configured host: the host without
/// trailing `/`, with `https://` in front unless it already starts with
/// `http://` or `https://`.
pub open spec fn base_url_of(host: Seq<char>) -> Seq<char> {
    if names_scheme(host) {
        trim_end_slashes(host)
    } else {
        https_prefix() + trim_end_slashes(host)
    }
}

/// The characters of `http://`, or of `https://` when `secure`.
fn scheme_chars(secure: bool) -> (res: Vec<char>)
    ensures
        res@ == if secure {
            https_prefix()
        } else {
            http_prefix()
        },
{
    let mut v: Vec<char> = Vec::new();
    v.push('h');
    v.push('t');
    v.push('t');
    v.push('p');
    if secure {
        v.push('s');
    }
    v.push(':');
    v.push('/');
    v.push('/');
    v
}

/// The base address requests go to for a configured host.
pub fn base_url(host: &str) -> (res: String)
    ensures
        res@ == base_url_of(host@),
{
    let v = chars_of(host);
    let mut end = v.len();
    assert(v@.subrange(0, end as int) == v@);
    while end > 0 && v[end - 1] == '/'
        invariant
            end <= v.len(),
            trim_end_slashes(v@) == trim_end_slashes(v@.subrange(0, end as int)),
        decreases end,
    {
        assert(v@.subrange(0, end as int).drop_last() == v@.subrange(0, end - 1));
        end = end - 1;
    }
    let http = scheme_chars(false);
    let https = scheme_chars(true);
    let mut out = String::new();
    if !(matches_at_exec(&v, &http, 0) || matches_at_exec(&v, &https, 0)) {
        let mut k: usize = 0;
        while k < https.len()
            invariant
                k <= https.len(),
                https@ == https_prefix(),
                out@ == https@.take(k as int),
            decreases https.len() - k,
        {
            push_char(&mut out, https[k]);
            assert(https@.take(k + 1) == https@.take(k as int).push(https@[k as int]));
            k = k + 1;
        }
        assert(https@.take(8) == https_prefix());
    }
    push_range(&mut out, &v, 0, end);
    out
}

/// A normalised address is used as the base address as it is.
pub proof fn law_base_url_of_normalized_host(input: Seq<char>)
    requires
        normalized_host(input) is Ok,
    ensures
        base_url_of(normalized_host(input)->Ok_0) == normalized_host(input)->Ok_0,
{
    let rest = host_part(trim(input))->Ok_0;
    let host = trim_host_tail(rest);
    lemma_trim_host_tail(rest);
    let h = https_prefix() + host;
    assert(has_prefix(h, https_prefix()));
    assert(h.last() == host.last());
    assert(trim_end_slashes(h) == h);
}

/// The username of an override: trimmed, and refused when empty.
pub open spec fn username_override(u: Seq<char>) -> Result<Seq<char>, ConfigError> {
    if trim(u).len() == 0 {
        Err(ConfigError::EmptyUsername)
    } else {
        Ok(trim(u))
    }
}

/// The settings after the overrides given for one command: a host (which is
/// normalised), a username (which is trimmed), and the TLS flags, where
/// `insecure` wins over `secure`.
pub open spec fn overridden(
    config: ConfigView,
    host: Option<Seq<char>>,
    username: Option<Seq<char>>,
    insecure: bool,
    secure: bool,
) -> Result<ConfigView, ConfigError> {
    let host_res: Result<Option<Seq<char>>, ConfigError> = match host {
        None => Ok(config.host),
        Some(h) => match normalized_host(h) {
            Ok(n) => Ok(Some(n)),
            Err(e) => Err(ConfigError::InvalidHost(e)),
        },
    };
    let user_res: Result<Option<Seq<char>>, ConfigError> = match username {
        None => Ok(config.username),
        Some(u) => match username_override(u) {
            Ok(t) => Ok(Some(t)),
            Err(e) => Err(e),
        },
    };
    match host_res {
        Err(e) => Err(e),
        Ok(new_host) => match user_res {
            Err(e) => Err(e),
            Ok(new_user) => Ok(
                ConfigView {
                    host: new_host,
                    username: new_user,
                    password: config.password,
                    insecure: if insecure {
                        Some(true)
                    } else if secure {
                        Some(false)
                    } else {
                        config.insecure
                    },
                },
            ),
        },
    }
}

/// Apply the overrides given for one command to the saved settings.
pub fn apply_runtime_overrides(
    config: Config,
    host: Option<&str>,
    username: Option<&str>,
    insecure: bool,
    secure: bool,
) -> (res: Result<Config, ConfigError>)
    ensures
        match res {
            Ok(c) => overridden(
                config@,
                match host {
                    Some(h) => Some(h@),
                    None => None,
                },
                match username {
                    Some(u) => Some(u@),
                    None => None,
                },
                insecure,
                secure,
            ) == Ok::<ConfigView, ConfigError>(c@),
            Err(e) => overridden(
                config@,
                match host {
                    Some(h) => Some(h@),
                    None => None,
                },
                match username {
                    Some(u) => Some(u@),
                    None => None,
                },
                insecure,
                secure,
            ) == Err::<ConfigView, ConfigError>(e),
        },
{
    let mut config = config;
    if let Some(h) = host {
        match normalize_host_input(h) {
            Ok(n) => {
                config.host = Some(n);
            },
            Err(e) => {
                return Err(ConfigError::InvalidHost(e));
            },
        }
    }
    if let Some(u) = username {
        let t = trim_string(u);
        if t.as_str().is_empty() {
            return Err(ConfigError::EmptyUsername);
        }
        config.username = Some(t);
    }
    if insecure {
        config.insecure = Some(true);
    } else if secure {
        config.insecure = Some(false);
    }
    Ok(config)
}

impl HostError {
    /// What is wrong with the address, for the user.
    pub fn message(&self) -> (res: &'static str)
        ensures
            res@ == match self {
                HostError::Empty => "host must not be empty"@,
                HostError::PlainHttp => "plain http:// is not supported — the NAS must be reached over HTTPS"@,
                HostError::UnsupportedScheme => "unsupported URL scheme — use https://"@,
            },
    {
        match self {
            HostError::Empty => "host must not be empty",
            HostError::PlainHttp => "plain http:// is not supported — the NAS must be reached over HTTPS",
            HostError::UnsupportedScheme => "unsupported URL scheme — use https://",
        }
    }
}

impl ConfigError {
    /// What is wrong with the settings, for the user.
    pub fn message(&self) -> (res: String)
        ensures
            res@ == match self {
                ConfigError::MissingHost => "no host configured — run `qnap login` first"@,
                ConfigError::MissingUsername => "no username configured — run `qnap login` first"@,
                ConfigError::MissingPassword => "no password configured — run `qnap login` first"@,
                ConfigError::EmptyUsername => "username must not be empty"@,
                ConfigError::EmptyPassword => "password must not be empty"@,
                ConfigError::InvalidHost(e) => match e {
                    HostError::Empty => "host must not be empty"@,
                    HostError::PlainHttp => "plain http:// is not supported — the NAS must be reached over HTTPS"@,
                    HostError::UnsupportedScheme => "unsupported URL scheme — use https://"@,
                },
            },
    {
        match self {
            ConfigError::MissingHost => String::from_str("no host configured — run `qnap login` first"),
            ConfigError::MissingUsername => String::from_str(
                "no username configured — run `qnap login` first",
            ),
            ConfigError::MissingPassword => String::from_str(
                "no password configured — run `qnap login` first",
            ),
            ConfigError::EmptyUsername => String::from_str("username must not be empty"),
            ConfigError::EmptyPassword => String::from_str("password must not be empty"),
            ConfigError::InvalidHost(e) => String::from_str(e.message()),
        }
    }
}

/// A username as typed: trimmed, and refused when nothing is left.
pub fn check_username(input: &str) -> (res: Result<String, ConfigError>)
    ensures
        match res {
            Ok(u) => username_override(input@) == Ok::<Seq<char>, ConfigError>(u@),
            Err(e) => username_override(input@) == Err::<Seq<char>, ConfigError>(e),
        },
{
    let t = trim_string(input);
    if t.as_str().is_empty() {
        Err(ConfigError::EmptyUsername)
    } else {
        Ok(t)
    }
}

/// A password as typed: refused when empty.
pub fn check_password(input: String) -> (res: Result<String, ConfigError>)
    ensures
        match res {
            Ok(p) => input@.len() > 0 && p@ == input@,
            Err(e) => input@.len() == 0 && e == ConfigError::EmptyPassword,
        },
{
    if input.as_str().is_empty() {
        Err(ConfigError::EmptyPassword)
    } else {
        Ok(input)
    }
}

/// What a login needs: where to go, as whom, with which password.
#[derive(Debug)]
pub struct LoginInputs {
    pub base_url: String,
    pub username: String,
    pub password: String,
}

/// What a command needs to log in: the base address of the configured host,
/// the password given for this command or else the saved one, and the
/// configured username; the first of these that is missing is the error.
pub fn login_inputs(config: &Config, password_override: Option<&str>) -> (res: Result<
    LoginInputs,
    ConfigError,
>)
    ensures
        match res {
            Ok(li) => {
                &&& config@.host matches Some(h) && li.base_url@ == base_url_of(h)
                &&& li.password@ == match password_override {
                    Some(p) => p@,
                    None => config@.password->Some_0,
                }
                &&& password_override is None ==> config@.password is Some
                &&& config@.username == Some(li.username@)
            },
            Err(e) => {
                ||| config@.host is None && e == ConfigError::MissingHost
                ||| config@.host is Some && password_override is None && config@.password is None
                    && e == ConfigError::MissingPassword
                ||| config@.host is Some && (password_override is Some || config@.password is Some)
                    && config@.username is None && e == ConfigError::MissingUsername
            },
        },
{
    let host = config.host()?;
    let base = base_url(host);
    let password = match password_override {
        Some(p) => String::from_str(p),
        None => String::from_str(config.password()?),
    };
    let username = String::from_str(config.username()?);
    Ok(LoginInputs { base_url: base, username, password })
}

/// Whether and how the login dialogue asks for a value.
#[derive(Debug)]
pub enum Prompt {
    /// The saved value stands.
    Keep,
    /// Ask, offering `initial` as the starting text when there is one.
    Ask { initial: Option<String> },
}

/// The questions of the login dialogue.
#[derive(Debug)]
pub struct LoginPrompts {
    pub host: Prompt,
    pub username: Prompt,
    pub ask_tls: bool,
}

/// The question for a setting: asked without a starting text when it is not
/// set, asked with the saved value when it is set and the password does not
/// come from standard input, kept otherwise.
pub open spec fn prompt_for(saved: Option<Seq<char>>, password_stdin: bool) -> Option<Option<Seq<char>>> {
    match saved {
        None => Some(None),
        Some(v) => if password_stdin {
            None
        } else {
            Some(Some(v))
        },
    }
}

/// The model of a [`Prompt`]: `None` to keep, `Some(initial)` to ask.
pub open spec fn prompt_view(p: Prompt) -> Option<Option<Seq<char>>> {
    match p {
        Prompt::Keep => None,
        Prompt::Ask { initial } => Some(initial.deep_view()),
    }
}

/// The question for one setting.
fn prompt_of(saved: &Option<String>, password_stdin: bool) -> (res: Prompt)
    ensures
        prompt_view(res) == prompt_for(saved.deep_view(), password_stdin),
{
    match saved {
        None => Prompt::Ask { initial: None },
        Some(v) => if password_stdin {
            Prompt::Keep
        } else {
            Prompt::Ask { initial: Some(v.clone()) }
        },
    }
}

/// The questions the login dialogue asks: host and username as
/// `prompt_for` says, and TLS verification when no choice is saved and the
/// password does not come from standard input.
pub fn login_prompts(config: &Config, password_stdin: bool) -> (res: LoginPrompts)
    ensures
        prompt_view(res.host) == prompt_for(config@.host, password_stdin),
        prompt_view(res.username) == prompt_for(config@.username, password_stdin),
        res.ask_tls == (config.insecure is None && !password_stdin),
{
    LoginPrompts {
        host: prompt_of(&config.host, password_stdin),
        username: prompt_of(&config.username, password_stdin),
        ask_tls: config.insecure.is_none() && !password_stdin,
    }
}

/// The lines of the `config` table: host and username (or `(not set)`),
/// whether TLS is verified, and the paths of the two files.
pub fn config_pairs(config: &Config, config_file: &str, credentials_file: &str) -> (res: Vec<
    (String, String),
>)
    ensures
        res.deep_view() == seq![
            ("host"@, match config@.host {
                Some(h) => h,
                None => "(not set)"@,
            }),
            ("username"@, match config@.username {
                Some(u) => u,
                None => "(not set)"@,
            }),
            ("tls_verify"@, if config.insecure == Some(true) {
                "false"@
            } else {
                "true"@
            }),
            ("config_file"@, config_file@),
            ("credentials_file"@, credentials_file@),
        ],
{
    let mut pairs: Vec<(String, String)> = Vec::new();
    let host = match &config.host {
        Some(h) => h.clone(),
        None => String::from_str("(not set)"),
    };
    let user = match &config.username {
        Some(u) => u.clone(),
        None => String::from_str("(not set)"),
    };
    let tls = if config.insecure() {
        String::from_str("false")
    } else {
        String::from_str("true")
    };
    pairs.push((String::from_str("host"), host));
    pairs.push((String::from_str("username"), user));
    pairs.push((String::from_str("tls_verify"), tls));
    pairs.push((String::from_str("config_file"), String::from_str(config_file)));
    pairs.push((String::from_str("credentials_file"), String::from_str(credentials_file)));
    pairs
}

/// Every address `normalize_host_input` accepts is an HTTPS address, and an
/// address naming plain `http://` is refused.
pub proof fn law_normalized_host_is_https(input: Seq<char>)
    ensures
        normalized_host(input) matches Ok(h) ==> has_prefix(h, https_prefix()),
        (trim(input).len() > 0 && find_from(trim(input), scheme_separator(), 0) == Some(4nat)
            && eq_ignore_case(trim(input).take(4), seq!['h', 't', 't', 'p']))
            ==> normalized_host(input) == Err::<Seq<char>, HostError>(HostError::PlainHttp),
{
    let t = trim(input);
    if t.len() > 0 && find_from(t, scheme_separator(), 0) == Some(4nat) && eq_ignore_case(
        t.take(4),
        seq!['h', 't', 't', 'p'],
    ) {
        assert(t.subrange(0, 4) == t.take(4));
        assert(!eq_ignore_case(t.take(4), seq!['h', 't', 't', 'p', 's']));
    }
}

/// Applying the same overrides a second time changes nothing more.
pub proof fn law_overrides_settle(
    config: ConfigView,
    host: Option<Seq<char>>,
    username: Option<Seq<char>>,
    insecure: bool,
    secure: bool,
)
    requires
        overridden(config, host, username, insecure, secure) is Ok,
    ensures
        overridden(overridden(config, host, username, insecure, secure)->Ok_0, host, username, insecure, secure)
            == overridden(config, host, username, insecure, secure),
{
}

/// The value of `QNAP_INSECURE`: `1`, `true` or `yes` skip TLS verification,
/// `0`, `false` or `no` force it; anything else leaves the setting alone.
pub open spec fn insecure_flag(text: Seq<char>) -> Option<bool> {
    let t = trim(text);
    if t == "1"@ || t == "true"@ || t == "yes"@ {
        Some(true)
    } else if t == "0"@ || t == "false"@ || t == "no"@ {
        Some(false)
    } else {
        None
    }
}

/// Read a `QNAP_INSECURE` value.
pub fn parse_insecure_flag(text: &str) -> (res: Option<bool>)
    ensures
        res == insecure_flag(text@),
{
    let t = trim_string(text);
    let t = t.as_str();
    if str_eq(t, "1") || str_eq(t, "true") || str_eq(t, "yes") {
        Some(true)
    } else if str_eq(t, "0") || str_eq(t, "false") || str_eq(t, "no") {
        Some(false)
    } else {
        None
    }
}

/// The settings once the environment has had its say: `QNAP_HOST`
/// (normalised), `QNAP_USERNAME` and `QNAP_PASSWORD` replace the saved
/// values when set and not empty, and `QNAP_INSECURE` as `insecure_flag` reads it.
pub open spec fn with_environment(
    config: ConfigView,
    host: Option<Seq<char>>,
    username: Option<Seq<char>>,
    password: Option<Seq<char>>,
    insecure: Option<Seq<char>>,
) -> Result<ConfigView, ConfigError> {
    let host_res: Result<Option<Seq<char>>, ConfigError> = match host {
        Some(h) => if h.len() == 0 {
            Ok(config.host)
        } else {
            match normalized_host(h) {
                Ok(n) => Ok(Some(n)),
                Err(e) => Err(ConfigError::InvalidHost(e)),
            }
        },
        None => Ok(config.host),
    };
    match host_res {
        Err(e) => Err(e),
        Ok(new_host) => Ok(
            ConfigView {
                host: new_host,
                username: match username {
                    Some(u) => if u.len() == 0 {
                        config.username
                    } else {
                        Some(u)
                    },
                    None => config.username,
                },
                password: match password {
                    Some(p) => if p.len() == 0 {
                        config.password
                    } else {
                        Some(p)
                    },
                    None => config.password,
                },
                insecure: match insecure {
                    Some(text) => match insecure_flag(text) {
                        Some(b) => Some(b),
                        None => config.insecure,
                    },
                    None => config.insecure,
                },
            },
        ),
    }
}

/// `v` when it is set and not empty, `old` otherwise.
fn non_empty_or(v: Option<String>, old: Option<String>) -> (res: Option<String>)
    ensures
        res.deep_view() == match v.deep_view() {
            Some(x) => if x.len() == 0 {
                old.deep_view()
            } else {
                Some(x)
            },
            None => old.deep_view(),
        },
{
    match v {
        Some(x) => if x.as_str().is_empty() {
            old
        } else {
            Some(x)
        },
        None => old,
    }
}

/// Let the environment variables override the saved settings.
pub fn apply_environment(
    config: Config,
    host: Option<String>,
    username: Option<String>,
    password: Option<String>,
    insecure: Option<String>,
) -> (res: Result<Config, ConfigError>)
    ensures
        match res {
            Ok(c) => with_environment(
                config@,
                host.deep_view(),
                username.deep_view(),
                password.deep_view(),
                insecure.deep_view(),
            ) == Ok::<ConfigView, ConfigError>(c@),
            Err(e) => with_environment(
                config@,
                host.deep_view(),
                username.deep_view(),
                password.deep_view(),
                insecure.deep_view(),
            ) == Err::<ConfigView, ConfigError>(e),
        },
{
    let Config { host: old_host, username: old_user, password: old_pwd, insecure: old_insecure } =
        config;
    let new_host = match host {
        Some(h) => if h.as_str().is_empty() {
            old_host
        } else {
            match normalize_host_input(h.as_str()) {
                Ok(n) => Some(n),
                Err(e) => return Err(ConfigError::InvalidHost(e)),
            }
        },
        None => old_host,
    };
    let new_insecure = match insecure {
        Some(text) => match parse_insecure_flag(text.as_str()) {
            Some(b) => Some(b),
            None => old_insecure,
        },
        None => old_insecure,
    };
    Ok(
        Config {
            host: new_host,
            username: non_empty_or(username, old_user),
            password: non_empty_or(password, old_pwd),
            insecure: new_insecure,
        },
    )
}

/// Environment variables override the saved files: a set, non-empty
/// `QNAP_HOST`, `QNAP_USERNAME` or `QNAP_PASSWORD` is what the settings hold
/// afterwards, whatever was saved.
pub proof fn law_environment_overrides_files(
    config: ConfigView,
    host: Seq<char>,
    username: Seq<char>,
    password: Seq<char>,
)
    requires
        normalized_host(host) is Ok,
        username.len() > 0,
        password.len() > 0,
    ensures
        with_environment(config, Some(host), Some(username), Some(password), None) matches Ok(c)
            && c.host == Some(normalized_host(host)->Ok_0) && c.username == Some(username)
            && c.password == Some(password) && c.insecure == config.insecure,
{
    assert(trim(host).len() > 0);
}

/// A host given on the command line wins over the environment and the
/// saved files alike.
pub proof fn law_command_line_host_wins(
    config: ConfigView,
    env_host: Option<Seq<char>>,
    cli_host: Seq<char>,
)
    requires
        with_environment(config, env_host, None, None, None) is Ok,
        normalized_host(cli_host) is Ok,
    ensures
        overridden(
            with_environment(config, env_host, None, None, None)->Ok_0,
            Some(cli_host),
            None,
            false,
            false,
        ) matches Ok(c) && c.host == Some(normalized_host(cli_host)->Ok_0),
{
}

/// `QNAP_INSECURE` decides TLS verification whatever was saved: `1`,
/// `true` or `yes` (white space around it ignored) skip it, `0`, `false` or
/// `no` force it, and any other value leaves the saved choice.
pub proof fn law_environment_insecure_flag(
    config: ConfigView,
    host: Option<Seq<char>>,
    username: Option<Seq<char>>,
    password: Option<Seq<char>>,
    text: Seq<char>,
)
    requires
        with_environment(config, host, username, password, Some(text)) is Ok,
    ensures
        ({
            let r = with_environment(config, host, username, password, Some(text))->Ok_0;
            let t = trim(text);
            &&& (t == "1"@ || t == "true"@ || t == "yes"@) ==> r.insecure == Some(true)
            &&& (t == "0"@ || t == "false"@ || t == "no"@) ==> r.insecure == Some(false)
            &&& !(t == "1"@ || t == "true"@ || t == "yes"@ || t == "0"@ || t == "false"@ || t
                == "no"@) ==> r.insecure == config.insecure
        }),
        with_environment(config, host, username, password, None) is Ok,
{
    reveal_strlit("1");
    reveal_strlit("true");
    reveal_strlit("yes");
    reveal_strlit("0");
    reveal_strlit("false");
    reveal_strlit("no");
    let t = trim(text);
    if t == "0"@ {
        assert(t[0] != "1"@[0]);
    }
    if t == "false"@ {
        assert(t[0] != "true"@[0]);
    }
    if t == "no"@ {
        assert(t.len() != "yes"@.len());
    }
}

} // verus!
