//! The builder: fluent setters, accessors, and the rendering of the URL.

use crate::decimal::{decimal_text, int_digits};
use crate::query::{
    fragment, fragments_len, has_key, index_of_key, key_at, keys_distinct,
    lemma_key_position_unique, lemma_render_ends_with_separator, lemma_render_holds_fragment,
    lemma_render_len, lemma_render_push, lemma_with_param, lemma_with_param_twice, occurs_at,
    occurs_in, pair_text, render_params, value_of, with_param, ParamView,
};
use vstd::prelude::*;
use vstd::string::*;

verus! {

/// What a builder holds, as plain mathematical values.
pub struct URLBuilderView {
    pub protocol: Seq<char>,
    pub host: Seq<char>,
    pub port: i16,
    /// The query parameters, in the order in which their keys were first added.
    pub params: Seq<ParamView>,
}

impl URLBuilderView {
    /// The state of a new builder: empty texts, port zero, no parameters.
    pub open spec fn empty() -> URLBuilderView {
        URLBuilderView {
            protocol: Seq::empty(),
            host: Seq::empty(),
            port: 0i16,
            params: Seq::empty(),
        }
    }

    /// The state with the protocol replaced.
    pub open spec fn with_protocol(self, protocol: Seq<char>) -> URLBuilderView {
        URLBuilderView { protocol, ..self }
    }

    /// The state with the host replaced.
    pub open spec fn with_host(self, host: Seq<char>) -> URLBuilderView {
        URLBuilderView { host, ..self }
    }

    /// The state with the port replaced.
    pub open spec fn with_port(self, port: i16) -> URLBuilderView {
        URLBuilderView { port, ..self }
    }

    /// The state after `key` has been given the value `value`.
    pub open spec fn with_param(self, key: Seq<char>, value: Seq<char>) -> URLBuilderView {
        URLBuilderView { params: with_param(self.params, key, value), ..self }
    }

    /// `protocol://host:port`, each field as it is.
    pub open spec fn base(self) -> Seq<char> {
        self.protocol + seq![':', '/', '/'] + self.host + seq![':'] + int_digits(self.port as int)
    }

    /// Nothing where there are no parameters; otherwise `?` and then every
    /// parameter as `key=value&`.
    pub open spec fn query(self) -> Seq<char> {
        if self.params.len() == 0 {
            Seq::empty()
        } else {
            seq!['?'] + render_params(self.params)
        }
    }

    /// The rendered URL.
    pub open spec fn url(self) -> Seq<char> {
        self.base() + self.query()
    }
}

/// Setting the host and reading it back gives the host that was set; the
/// other fields stay as they were.
pub proof fn lemma_host_round_trip(v: URLBuilderView, host: Seq<char>)
    ensures
        v.with_host(host).host == host,
        v.with_host(host).protocol == v.protocol,
        v.with_host(host).port == v.port,
        v.with_host(host).params == v.params,
{
}

/// Setting the protocol and reading it back gives the protocol that was set;
/// the other fields stay as they were.
pub proof fn lemma_protocol_round_trip(v: URLBuilderView, protocol: Seq<char>)
    ensures
        v.with_protocol(protocol).protocol == protocol,
        v.with_protocol(protocol).host == v.host,
        v.with_protocol(protocol).port == v.port,
        v.with_protocol(protocol).params == v.params,
{
}

/// Setting the port and reading it back gives the port that was set, for
/// every 16-bit value; the other fields stay as they were.
pub proof fn lemma_port_round_trip(v: URLBuilderView, port: i16)
    ensures
        v.with_port(port).port == port,
        v.with_port(port).protocol == v.protocol,
        v.with_port(port).host == v.host,
        v.with_port(port).params == v.params,
{
}

/// Last write wins: after one key has been added twice, the state is what it
/// would be had only the second value been added, the key is held exactly
/// once, and it carries the second value.
pub proof fn lemma_add_param_twice(
    v: URLBuilderView,
    key: Seq<char>,
    first: Seq<char>,
    second: Seq<char>,
)
    requires
        keys_distinct(v.params),
    ensures
        v.with_param(key, first).with_param(key, second) == v.with_param(key, second),
        value_of(v.with_param(key, first).with_param(key, second).params, key) == Some(second),
        forall|i: int, j: int|
            key_at(v.with_param(key, first).with_param(key, second).params, key, i) && key_at(
                v.with_param(key, first).with_param(key, second).params,
                key,
                j,
            ) ==> i == j,
        occurs_in(
            pair_text((key, second)),
            v.with_param(key, first).with_param(key, second).url(),
        ),
{
    lemma_with_param_twice(v.params, key, first, second);
    let w = v.with_param(key, first).with_param(key, second);
    let i = index_of_key(w.params, key);
    assert(key_at(w.params, key, i));
    lemma_url_holds_param(w, i);
}

/// The rendered URL is a function of the state alone: two renderings of one
/// state are the same text.
pub proof fn lemma_url_repeatable(v: URLBuilderView, first: Seq<char>, second: Seq<char>)
    requires
        first == v.url(),
        second == v.url(),
    ensures
        first == second,
{
}

/// A new builder renders to `://:0`.
pub proof fn lemma_url_of_empty()
    ensures
        URLBuilderView::empty().url() == seq![':', '/', '/', ':', '0'],
{
    assert(URLBuilderView::empty().url() =~= seq![':', '/', '/', ':', '0']);
}

/// The shape of the rendered URL. It begins with the base. Without
/// parameters it is the base and nothing more. With parameters, `?` follows
/// the base, the text ends with `&`, and its length is that of the base, plus
/// one, plus the lengths of all `key=value&` texts.
pub proof fn lemma_url_shape(v: URLBuilderView)
    ensures
        v.base().is_prefix_of(v.url()),
        v.params.len() == 0 ==> v.url() == v.base(),
        v.params.len() > 0 ==> {
            &&& v.url().len() == v.base().len() + 1 + fragments_len(v.params)
            &&& v.url()[v.base().len() as int] == '?'
            &&& v.url().last() == '&'
        },
{
    lemma_render_len(v.params);
    if v.params.len() > 0 {
        lemma_render_ends_with_separator(v.params);
    } else {
        assert(v.url() =~= v.base());
    }
}

/// Every parameter of the state occurs in the rendered URL, as `key=value&`
/// and so also as `key=value`.
pub proof fn lemma_url_holds_param(v: URLBuilderView, i: int)
    requires
        0 <= i < v.params.len(),
    ensures
        occurs_in(fragment(v.params[i]), v.url()),
        occurs_in(pair_text(v.params[i]), v.url()),
{
    let body = render_params(v.params);
    let shift = v.base().len() + 1;
    lemma_render_holds_fragment(v.params, i);
    let at = choose|at: int| occurs_at(fragment(v.params[i]), body, at);
    assert(occurs_at(fragment(v.params[i]), body, at));
    assert(v.url().subrange(shift + at, shift + at + fragment(v.params[i]).len()) =~= body.subrange(
        at,
        at + fragment(v.params[i]).len(),
    ));
    assert(occurs_at(fragment(v.params[i]), v.url(), shift + at));
    let bt = choose|bt: int| occurs_at(pair_text(v.params[i]), body, bt);
    assert(occurs_at(pair_text(v.params[i]), body, bt));
    assert(v.url().subrange(shift + bt, shift + bt + pair_text(v.params[i]).len())
        =~= body.subrange(bt, bt + pair_text(v.params[i]).len()));
    assert(occurs_at(pair_text(v.params[i]), v.url(), shift + bt));
}

/// Accumulates the parts of a URL and renders them on demand.
pub struct URLBuilder {
    protocol: String,
    host: String,
    port: i16,
    params: Vec<(String, String)>,
}

/// The parameters of a builder as pairs of texts.
spec fn params_view(params: Seq<(String, String)>) -> Seq<ParamView> {
    Seq::new(params.len(), |i: int| (params[i].0@, params[i].1@))
}

impl View for URLBuilder {
    type V = URLBuilderView;

    closed spec fn view(&self) -> URLBuilderView {
        URLBuilderView {
            protocol: self.protocol@,
            host: self.host@,
            port: self.port,
            params: params_view(self.params@),
        }
    }
}

/// Looks for the entry that carries `key`: its position, or `None` where no
/// entry carries it.
fn find_key(params: &Vec<(String, String)>, key: &String) -> (found: Option<usize>)
    ensures
        match found {
            Some(i) => key_at(params_view(params@), key@, i as int),
            None => !has_key(params_view(params@), key@),
        },
{
    let n: usize = params.len();
    let mut i: usize = 0;
    while i < n
        invariant
            i <= n,
            n == params.len(),
            forall|j: int| 0 <= j < i ==> !key_at(params_view(params@), key@, j),
        decreases n - i,
    {
        if params[i].0 == *key {
            return Some(i);
        }
        i += 1;
    }
    None
}

/// Gives `key` the value `value` in a list whose keys are distinct.
fn put_param(params: &mut Vec<(String, String)>, key: String, value: String)
    requires
        keys_distinct(params_view(old(params)@)),
    ensures
        params_view(final(params)@) == with_param(params_view(old(params)@), key@, value@),
        keys_distinct(params_view(final(params)@)),
{
    proof {
        lemma_with_param(params_view(params@), key@, value@);
    }
    match find_key(params, &key) {
        Some(i) => {
            proof {
                lemma_key_position_unique(params_view(params@), key@, i as int);
            }
            params.set(i, (key, value));
        },
        None => {
            params.push((key, value));
        },
    }
    assert(params_view(params@) =~= with_param(params_view(old(params)@), key@, value@));
}

impl URLBuilder {
    #[verifier::type_invariant]
    closed spec fn inv(&self) -> bool {
        keys_distinct(params_view(self.params@))
    }

    /// A builder with empty protocol and host, port zero and no parameters.
    pub fn new() -> (ub: URLBuilder)
        ensures
            ub@ == URLBuilderView::empty(),
    {
        let ub = URLBuilder {
            protocol: String::new(),
            host: String::new(),
            port: 0,
            params: Vec::new(),
        };
        assert(ub@.params =~= Seq::empty());
        ub
    }

    /// Renders the URL: `protocol://host:port`, and after it, where there are
    /// parameters, `?` and every parameter as `key=value&`, in the order in
    /// which the keys were first added. Nothing is escaped. No key is held
    /// twice.
    pub fn build(&self) -> (url: String)
        ensures
            url@ == self@.url(),
            keys_distinct(self@.params),
    {
        proof {
            use_type_invariant(self);
            reveal_strlit("://");
            reveal_strlit(":");
            reveal_strlit("?");
        }
        let mut url: String = self.protocol.clone();
        url.append("://");
        url.append(self.host.as_str());
        url.append(":");
        let port: String = decimal_text(self.port);
        url.append(port.as_str());
        assert(url@ =~= self@.base());
        let n: usize = self.params.len();
        if n > 0 {
            url.append("?");
            let mut i: usize = 0;
            while i < n
                invariant
                    i <= n,
                    n == self.params.len(),
                    url@ == self@.base() + seq!['?'] + render_params(self@.params.take(i as int)),
                decreases n - i,
            {
                let ghost before = url@;
                let pair = &self.params[i];
                url.append(pair.0.as_str());
                url.append("=");
                url.append(pair.1.as_str());
                url.append("&");
                proof {
                    reveal_strlit("=");
                    reveal_strlit("&");
                    let ps = self@.params;
                    assert(ps.take(i + 1) =~= ps.take(i as int).push(ps[i as int]));
                    lemma_render_push(ps.take(i as int), ps[i as int]);
                    assert(url@ =~= before + fragment(ps[i as int]));
                }
                i += 1;
            }
            assert(self@.params.take(n as int) =~= self@.params);
        }
        url
    }

    /// Gives `param` the value `value`. A key that is already there keeps its
    /// place and takes the new value; a new key goes to the end.
    pub fn add_param(&mut self, param: &str, value: &str) -> (ret: &mut Self)
        ensures
            ret@ == old(self)@.with_param(param@, value@),
            keys_distinct(ret@.params),
            *final(self) == *final(ret),
    {
        proof {
            use_type_invariant(&*self);
        }
        let mut params: Vec<(String, String)> = Vec::new();
        core::mem::swap(&mut self.params, &mut params);
        put_param(&mut params, param.to_owned(), value.to_owned());
        core::mem::swap(&mut self.params, &mut params);
        self
    }

    /// Sets the protocol, taken as it is.
    pub fn set_protocol(&mut self, prot: &str) -> (ret: &mut Self)
        ensures
            ret@ == old(self)@.with_protocol(prot@),
            keys_distinct(ret@.params),
            *final(self) == *final(ret),
    {
        proof {
            use_type_invariant(&*self);
        }
        self.protocol = prot.to_owned();
        self
    }

    /// Sets the host, taken as it is.
    pub fn set_host(&mut self, host: &str) -> (ret: &mut Self)
        ensures
            ret@ == old(self)@.with_host(host@),
            keys_distinct(ret@.params),
            *final(self) == *final(ret),
    {
        proof {
            use_type_invariant(&*self);
        }
        self.host = host.to_owned();
        self
    }

    /// Sets the port; every 16-bit value is accepted.
    pub fn set_port(&mut self, port: i16) -> (ret: &mut Self)
        ensures
            ret@ == old(self)@.with_port(port),
            keys_distinct(ret@.params),
            *final(self) == *final(ret),
    {
        proof {
            use_type_invariant(&*self);
        }
        self.port = port;
        self
    }

    /// The port.
    pub fn port(&self) -> (port: i16)
        ensures
            port == self@.port,
    {
        self.port
    }

    /// The host.
    pub fn host(&self) -> (host: &str)
        ensures
            host@ == self@.host,
    {
        self.host.as_str()
    }

    /// The protocol.
    pub fn protocol(&self) -> (protocol: &str)
        ensures
            protocol@ == self@.protocol,
    {
        self.protocol.as_str()
    }
}

} // verus!
