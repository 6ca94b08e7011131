//! The stream-routing and delivery element kinds (`distributor`,
//! `converger`, `filter`, `http_push`): their registrations and the checks
//! their parameters pass when a graph is loaded.
use crate::graph::element::PortSchema;
use crate::graph::error::GraphError;
use crate::graph::json::{JsonValue, JsonView};
use crate::graph::diff::{ascending, holds, insert_sorted};
use crate::graph::params::{
    choice_field, field, get_field, names, number_u64, params_entries, params_object, read_choice,
    reject_unknown_fields, uint_text, unknown_field_violation, ParamCheck,
};
use crate::graph::schema::{ParamField, ParamType};
use crate::graph::validate::ElementDescriptor;
use crate::text::{
    ascii_lowercase_spec, ascii_uppercase_spec, is_whitespace, split_once, split_once_spec, starts_with,
    starts_with_spec, str_eq, to_ascii_lowercase, to_ascii_uppercase, white_space,
};
use vstd::prelude::*;
use vstd::string::StrSliceExecFns;

verus! {

/// A positive integer parameter, or the error naming its field.
pub fn ensure_nonzero(value: usize, key: &str) -> (r: Result<usize, GraphError>)
    ensures
        value != 0 ==> r == Ok::<usize, GraphError>(value),
        value == 0 ==> (r matches Err(GraphError::Config(m)) && m@ == "field "@ + key@ + " must be non-zero"@),
{
    if value == 0 {
        return Err(GraphError::Config("field ".to_owned().concat(key).concat(" must be non-zero")));
    }
    Ok(value)
}

/// `url` names an `http` or `https` scheme (in any letter case) before
/// `://`, and a non-empty remainder without white space.
pub open spec fn http_url(url: Seq<char>) -> bool {
    match split_once_spec(url, "://"@) {
        None => false,
        Some((scheme, rest)) => {
            &&& (ascii_lowercase_spec(scheme) == "http"@ || ascii_lowercase_spec(scheme) == "https"@)
            &&& rest.len() > 0
            &&& forall|i: int| 0 <= i < rest.len() ==> !white_space(#[trigger] rest[i])
        },
    }
}

/// Checks the `url` parameter of the HTTP push element.
pub fn validate_http_url(url: &str) -> (r: Result<(), GraphError>)
    ensures
        http_url(url@) ==> r is Ok,
        split_once_spec(url@, "://"@) is None ==> (r matches Err(GraphError::Config(m)) && m@
            == "field url must use the http:// or https:// scheme"@),
        split_once_spec(url@, "://"@) is Some && !http_url(url@) ==> (r matches Err(GraphError::Config(m))
            && m@ == "field url must use a non-empty http:// or https:// URL"@),
{
    let (scheme, rest) = match split_once(url, "://") {
        Some(parts) => parts,
        None => {
            return Err(GraphError::Config("field url must use the http:// or https:// scheme".to_string()));
        },
    };
    let lower = to_ascii_lowercase(scheme);
    let known = str_eq(lower.as_str(), "http") || str_eq(lower.as_str(), "https");
    let n = rest.unicode_len();
    let mut i: usize = 0;
    let mut blank = false;
    while i < n
        invariant
            n == rest@.len(),
            i <= n,
            !blank ==> forall|k: int| 0 <= k < i ==> !white_space(#[trigger] rest@[k]),
            blank ==> exists|k: int| 0 <= k < n && white_space(#[trigger] rest@[k]),
        decreases n - i,
    {
        if is_whitespace(rest.get_char(i)) {
            blank = true;
        }
        i += 1;
    }
    if !known || n == 0 || blank {
        return Err(
            GraphError::Config("field url must use a non-empty http:// or https:// URL".to_string()),
        );
    }
    Ok(())
}

/// How a distributor hands packets to its outputs.
#[derive(Clone, Copy, Debug, PartialEq, Eq, Structural)]
pub enum DistributionStrategy {
    /// Each packet goes to the next output in turn.
    RoundRobin,
    /// Each packet goes to every output.
    Broadcast,
}

/// What a filter does with the packets it receives.
#[derive(Clone, Copy, Debug, PartialEq, Eq, Structural)]
pub enum FilterMode {
    Pass,
    Drop,
}

pub open spec fn strategy_names() -> Seq<Seq<char>> {
    seq!["round_robin"@, "broadcast"@]
}

pub open spec fn filter_mode_names() -> Seq<Seq<char>> {
    seq!["pass"@, "drop"@]
}

fn strategy_values() -> (r: &'static [&'static str])
    ensures
        names(r@) == strategy_names(),
{
    let r: &'static [&'static str] = &["round_robin", "broadcast"];
    assert(names(r@) =~= strategy_names());
    r
}

fn filter_mode_values() -> (r: &'static [&'static str])
    ensures
        names(r@) == filter_mode_names(),
{
    let r: &'static [&'static str] = &["pass", "drop"];
    assert(names(r@) =~= filter_mode_names());
    r
}

/// What a distributor node's `params` give: an object whose only field is
/// `strategy`, `round_robin` (the default) or `broadcast`.
pub open spec fn distributor_params(name: Seq<char>, v: JsonView) -> Result<DistributionStrategy, Seq<char>> {
    match params_object(name, v) {
        Err(e) => Err(e),
        Ok(m) => match unknown_field_violation(m, seq!["strategy"@]) {
            Some(e) => Err(e),
            None => match choice_field(m, "strategy"@, "round_robin"@, strategy_names()) {
                Err(e) => Err(e),
                Ok(s) => Ok(
                    if s == "round_robin"@ {
                        DistributionStrategy::RoundRobin
                    } else {
                        DistributionStrategy::Broadcast
                    },
                ),
            },
        },
    }
}

/// Reads the strategy of a distributor node.
pub fn parse_distributor(name: &str, params: &JsonValue) -> (r: Result<DistributionStrategy, String>)
    ensures
        match distributor_params(name@, params@) {
            Ok(s) => r == Ok::<DistributionStrategy, String>(s),
            Err(e) => r matches Err(x) && x@ == e,
        },
{
    let entries = match params_entries(name, params) {
        Ok(o) => o,
        Err(e) => {
            return Err(e);
        },
    };
    let fields: &[&str] = &["strategy"];
    assert(names(fields@) =~= seq!["strategy"@]);
    match reject_unknown_fields(entries, fields) {
        Ok(()) => {},
        Err(e) => {
            return Err(e);
        },
    }
    let values = strategy_values();
    proof {
        reveal_strlit("round_robin");
        reveal_strlit("broadcast");
    }
    match read_choice(entries, "strategy", "round_robin", values) {
        Err(e) => Err(e),
        Ok(i) => {
            proof {
                assert(values@[i as int]@ == strategy_names()[i as int]);
            }
            if i == 0 {
                Ok(DistributionStrategy::RoundRobin)
            } else {
                Ok(DistributionStrategy::Broadcast)
            }
        },
    }
}

/// What a filter node's `params` give: an object whose only field is
/// `mode`, `pass` (the default) or `drop`.
pub open spec fn filter_params(name: Seq<char>, v: JsonView) -> Result<FilterMode, Seq<char>> {
    match params_object(name, v) {
        Err(e) => Err(e),
        Ok(m) => match unknown_field_violation(m, seq!["mode"@]) {
            Some(e) => Err(e),
            None => match choice_field(m, "mode"@, "pass"@, filter_mode_names()) {
                Err(e) => Err(e),
                Ok(s) => Ok(
                    if s == "pass"@ {
                        FilterMode::Pass
                    } else {
                        FilterMode::Drop
                    },
                ),
            },
        },
    }
}

/// Reads the mode of a filter node.
pub fn parse_filter(name: &str, params: &JsonValue) -> (r: Result<FilterMode, String>)
    ensures
        match filter_params(name@, params@) {
            Ok(f) => r == Ok::<FilterMode, String>(f),
            Err(e) => r matches Err(x) && x@ == e,
        },
{
    let entries = match params_entries(name, params) {
        Ok(o) => o,
        Err(e) => {
            return Err(e);
        },
    };
    let fields: &[&str] = &["mode"];
    assert(names(fields@) =~= seq!["mode"@]);
    match reject_unknown_fields(entries, fields) {
        Ok(()) => {},
        Err(e) => {
            return Err(e);
        },
    }
    let values = filter_mode_values();
    proof {
        reveal_strlit("pass");
        reveal_strlit("drop");
        assert("pass"@[0] != "drop"@[0]);
    }
    match read_choice(entries, "mode", "pass", values) {
        Err(e) => Err(e),
        Ok(i) => {
            proof {
                assert(values@[i as int]@ == filter_mode_names()[i as int]);
            }
            if i == 0 {
                Ok(FilterMode::Pass)
            } else {
                Ok(FilterMode::Drop)
            }
        },
    }
}

/// Where and how an HTTP push node sends what it receives.
pub struct HttpPushConfig {
    pub url: String,
    pub method: String,
}

/// `m` is a usable HTTP method: non-empty, without white space.
pub open spec fn http_method(m: Seq<char>) -> bool {
    m.len() > 0 && forall|i: int| 0 <= i < m.len() ==> !white_space(#[trigger] m[i])
}

/// What an HTTP push node's `params` give, as (url, method): an object of
/// `url`, a non-empty `http://` or `https://` URL, and `method` (default
/// `POST`), a non-empty word that is upper-cased.
pub open spec fn http_push_params(name: Seq<char>, v: JsonView) -> Result<(Seq<char>, Seq<char>), Seq<char>> {
    match params_object(name, v) {
        Err(e) => Err(e),
        Ok(m) => match unknown_field_violation(m, seq!["url"@, "method"@]) {
            Some(e) => Err(e),
            None => {
                let url = match field(m, "url"@) {
                    None => Err("field url is required and must be a string"@),
                    Some(JsonView::Str(u)) => if u.len() > 0 {
                        Ok(u)
                    } else {
                        Err("field url must be a non-empty string"@)
                    },
                    Some(_) => Err("field url must be a non-empty string"@),
                };
                match url {
                    Err(e) => Err(e),
                    Ok(u) => if split_once_spec(u, "://"@) is None {
                        Err("field url must use the http:// or https:// scheme"@)
                    } else if !http_url(u) {
                        Err("field url must use a non-empty http:// or https:// URL"@)
                    } else {
                        let method = match field(m, "method"@) {
                            None => Ok("POST"@),
                            Some(JsonView::Str(s)) => Ok(s),
                            Some(_) => Err("field method must be a string"@),
                        };
                        match method {
                            Err(e) => Err(e),
                            Ok(s) => if http_method(s) {
                                Ok((u, ascii_uppercase_spec(s)))
                            } else {
                                Err("field method must be a non-empty HTTP method"@)
                            },
                        }
                    },
                }
            },
        },
    }
}

fn http_method_exec(m: &str) -> (r: bool)
    ensures
        r == http_method(m@),
{
    let n = m.unicode_len();
    let mut i: usize = 0;
    while i < n
        invariant
            n == m@.len(),
            i <= n,
            forall|k: int| 0 <= k < i ==> !white_space(#[trigger] m@[k]),
        decreases n - i,
    {
        if is_whitespace(m.get_char(i)) {
            return false;
        }
        i += 1;
    }
    n > 0
}

/// Reads the target of an HTTP push node.
pub fn parse_http_push(name: &str, params: &JsonValue) -> (r: Result<HttpPushConfig, String>)
    ensures
        match http_push_params(name@, params@) {
            Ok((u, m)) => r matches Ok(c) && c.url@ == u && c.method@ == m,
            Err(e) => r matches Err(x) && x@ == e,
        },
{
    let entries = match params_entries(name, params) {
        Ok(o) => o,
        Err(e) => {
            return Err(e);
        },
    };
    let fields: &[&str] = &["url", "method"];
    assert(names(fields@) =~= seq!["url"@, "method"@]);
    match reject_unknown_fields(entries, fields) {
        Ok(()) => {},
        Err(e) => {
            return Err(e);
        },
    }
    let url: &str = match get_field(entries, "url") {
        None => {
            return Err("field url is required and must be a string".to_string());
        },
        Some(JsonValue::Str(u)) => {
            if u.unicode_len() == 0 {
                return Err("field url must be a non-empty string".to_string());
            }
            u.as_str()
        },
        Some(_) => {
            return Err("field url must be a non-empty string".to_string());
        },
    };
    match validate_http_url(url) {
        Ok(()) => {},
        Err(GraphError::Config(m)) => {
            return Err(m);
        },
        Err(_) => {
            return Err(String::new());
        },
    }
    let method: &str = match get_field(entries, "method") {
        None => "POST",
        Some(JsonValue::Str(s)) => s.as_str(),
        Some(_) => {
            return Err("field method must be a string".to_string());
        },
    };
    if !http_method_exec(method) {
        return Err("field method must be a non-empty HTTP method".to_string());
    }
    Ok(HttpPushConfig { url: url.to_string(), method: to_ascii_uppercase(method) })
}

/// `p` is the port `name`, of any data type, required or not as given.
pub open spec fn any_port(p: PortSchema, name: Seq<char>, required: bool) -> bool {
    p.name@ == name && p.dtype is None && p.required == required
}

fn any_port_named(name: &'static str, required: bool) -> (r: PortSchema)
    ensures
        any_port(r, name@, required),
{
    PortSchema { name, dtype: None, required }
}

/// The routing and delivery element kinds. `distributor` reads `in` and
/// writes `out0` to `out7`; `converger` reads `in0` (required) to `in7` and
/// writes `out`; `filter` reads `in` and writes `out`; `http_push` reads
/// `in`. Every port carries any data type.
pub fn routing_elements() -> (r: Vec<ElementDescriptor>)
    ensures
        r@.len() == 4,
        r@[0].kind@ == "distributor"@,
        r@[0].validate == Some(ParamCheck::Distributor),
        r@[0].input_ports@.len() == 1,
        any_port(r@[0].input_ports@[0], "in"@, true),
        r@[0].output_ports@.len() == 8,
        any_port(r@[0].output_ports@[0], "out0"@, false),
        any_port(r@[0].output_ports@[1], "out1"@, false),
        any_port(r@[0].output_ports@[2], "out2"@, false),
        any_port(r@[0].output_ports@[3], "out3"@, false),
        any_port(r@[0].output_ports@[4], "out4"@, false),
        any_port(r@[0].output_ports@[5], "out5"@, false),
        any_port(r@[0].output_ports@[6], "out6"@, false),
        any_port(r@[0].output_ports@[7], "out7"@, false),
        r@[0].params@.len() == 1,
        r@[0].params@[0].name@ == "strategy"@,
        r@[0].params@[0].ty matches ParamType::Enum(v) && names(v@) == strategy_names(),
        r@[1].kind@ == "converger"@,
        r@[1].validate == Some(ParamCheck::NoParams),
        r@[1].input_ports@.len() == 8,
        any_port(r@[1].input_ports@[0], "in0"@, true),
        any_port(r@[1].input_ports@[1], "in1"@, false),
        any_port(r@[1].input_ports@[2], "in2"@, false),
        any_port(r@[1].input_ports@[3], "in3"@, false),
        any_port(r@[1].input_ports@[4], "in4"@, false),
        any_port(r@[1].input_ports@[5], "in5"@, false),
        any_port(r@[1].input_ports@[6], "in6"@, false),
        any_port(r@[1].input_ports@[7], "in7"@, false),
        r@[1].output_ports@.len() == 1,
        any_port(r@[1].output_ports@[0], "out"@, false),
        r@[1].params@.len() == 0,
        r@[2].kind@ == "filter"@,
        r@[2].validate == Some(ParamCheck::Filter),
        r@[2].input_ports@.len() == 1,
        any_port(r@[2].input_ports@[0], "in"@, true),
        r@[2].output_ports@.len() == 1,
        any_port(r@[2].output_ports@[0], "out"@, false),
        r@[2].params@.len() == 1,
        r@[2].params@[0].name@ == "mode"@,
        r@[2].params@[0].ty matches ParamType::Enum(v) && names(v@) == filter_mode_names(),
        r@[3].kind@ == "http_push"@,
        r@[3].validate == Some(ParamCheck::HttpPush),
        r@[3].input_ports@.len() == 1,
        any_port(r@[3].input_ports@[0], "in"@, true),
        r@[3].output_ports@.len() == 0,
        r@[3].params@.len() == 2,
        r@[3].params@[0].name@ == "url"@ && r@[3].params@[0].ty == ParamType::Str && r@[3].params@[0].required,
        r@[3].params@[1].name@ == "method"@ && r@[3].params@[1].ty == ParamType::Str && !r@[3].params@[1].required,
{
    let input = any_port_named("in", true);
    let output = any_port_named("out", false);
    let outs = vec![
        any_port_named("out0", false),
        any_port_named("out1", false),
        any_port_named("out2", false),
        any_port_named("out3", false),
        any_port_named("out4", false),
        any_port_named("out5", false),
        any_port_named("out6", false),
        any_port_named("out7", false),
    ];
    let ins = vec![
        any_port_named("in0", true),
        any_port_named("in1", false),
        any_port_named("in2", false),
        any_port_named("in3", false),
        any_port_named("in4", false),
        any_port_named("in5", false),
        any_port_named("in6", false),
        any_port_named("in7", false),
    ];
    let mut r: Vec<ElementDescriptor> = Vec::new();
    r.push(
        ElementDescriptor {
            kind: "distributor".to_string(),
            input_ports: vec![input],
            output_ports: outs,
            params: vec![ParamField { name: "strategy", ty: ParamType::Enum(strategy_values()), required: false }],
            validate: Some(ParamCheck::Distributor),
        },
    );
    r.push(
        ElementDescriptor {
            kind: "converger".to_string(),
            input_ports: ins,
            output_ports: vec![output],
            params: Vec::new(),
            validate: Some(ParamCheck::NoParams),
        },
    );
    r.push(
        ElementDescriptor {
            kind: "filter".to_string(),
            input_ports: vec![input],
            output_ports: vec![output],
            params: vec![ParamField { name: "mode", ty: ParamType::Enum(filter_mode_values()), required: false }],
            validate: Some(ParamCheck::Filter),
        },
    );
    r.push(
        ElementDescriptor {
            kind: "http_push".to_string(),
            input_ports: vec![input],
            output_ports: Vec::new(),
            params: vec![
                ParamField { name: "url", ty: ParamType::Str, required: true },
                ParamField { name: "method", ty: ParamType::Str, required: false },
            ],
            validate: Some(ParamCheck::HttpPush),
        },
    );
    r
}

/// The number of the branch an output port `out<n>` of a distributor
/// feeds, `<n>` read as `str::parse::<usize>` reads it (an optional `+`,
/// then decimal digits); none for other names.
pub open spec fn branch_of(name: Seq<char>) -> Option<usize> {
    if starts_with_spec(name, "out"@) {
        let rest = name.skip(3);
        let digits = if rest.len() > 0 && rest[0] == '+' {
            rest.skip(1)
        } else {
            rest
        };
        match uint_text(digits) {
            Some(v) => if v <= usize::MAX {
                Some(v as usize)
            } else {
                None
            },
            None => None,
        }
    } else {
        None
    }
}

/// The branch numbers of the ports, in order, skipping the other names.
pub open spec fn branches(ports: Seq<Seq<char>>) -> Seq<usize>
    decreases ports.len(),
{
    if ports.len() == 0 {
        Seq::empty()
    } else {
        match branch_of(ports.last()) {
            Some(b) => branches(ports.drop_last()).push(b),
            None => branches(ports.drop_last()),
        }
    }
}

/// The branch number of one output port name.
fn parse_branch(name: &str) -> (r: Option<usize>)
    ensures
        r == branch_of(name@),
{
    proof {
        reveal_strlit("out");
    }
    if !starts_with(name, "out") {
        return None;
    }
    let n = name.unicode_len();
    let rest = name.substring_char(3, n);
    assert(rest@ =~= name@.skip(3));
    let m = rest.unicode_len();
    let digits = if m > 0 && rest.get_char(0) == '+' {
        let d = rest.substring_char(1, m);
        assert(d@ =~= rest@.skip(1));
        d
    } else {
        rest
    };
    match number_u64(digits) {
        Some(v) => if v <= usize::MAX as u64 {
            Some(v as usize)
        } else {
            None
        },
        None => None,
    }
}

/// The branches a distributor feeds, from the names of its connected
/// output ports; a distributor needs at least one.
pub fn distributor_outputs(ports: &Vec<String>) -> (r: Result<Vec<usize>, GraphError>)
    ensures
        branches(crate::graph::spec::texts(ports@)).len() == 0 ==> (r matches Err(GraphError::Config(m)) && m@
            == "distributor requires at least one output"@),
        branches(crate::graph::spec::texts(ports@)).len() > 0 ==> (r matches Ok(v) && v@ == branches(
            crate::graph::spec::texts(ports@),
        )),
{
    let ghost t = crate::graph::spec::texts(ports@);
    let mut out: Vec<usize> = Vec::new();
    let mut i: usize = 0;
    while i < ports.len()
        invariant
            t == crate::graph::spec::texts(ports@),
            i <= ports@.len(),
            out@ == branches(t.take(i as int)),
        decreases ports@.len() - i,
    {
        let b = parse_branch(ports[i].as_str());
        proof {
            assert(t.take(i + 1).drop_last() =~= t.take(i as int));
            assert(t.take(i + 1).last() == ports@[i as int]@);
        }
        if let Some(b) = b {
            out.push(b);
        }
        i += 1;
    }
    assert(t.take(ports@.len() as int) =~= t);
    if out.len() == 0 {
        return Err(GraphError::Config("distributor requires at least one output".to_string()));
    }
    Ok(out)
}

/// Where a distributor sends its next packet, and the counter it keeps for
/// the packet after: every branch at once, or the next branch in turn.
pub fn distribute(strategy: DistributionStrategy, branches: &Vec<usize>, next: usize) -> (r: (Vec<usize>, usize))
    requires
        branches@.len() > 0,
    ensures
        strategy == DistributionStrategy::Broadcast ==> r.0@ == branches@ && r.1 == next,
        strategy == DistributionStrategy::RoundRobin ==> r.0@ == seq![branches@[(next as int) % (branches@.len() as int)]]
            && r.1 == (if next == usize::MAX {
            0
        } else {
            next + 1
        }),
{
    match strategy {
        DistributionStrategy::Broadcast => {
            let mut all: Vec<usize> = Vec::new();
            let mut i: usize = 0;
            while i < branches.len()
                invariant
                    i <= branches@.len(),
                    all@ == branches@.take(i as int),
                decreases branches@.len() - i,
            {
                all.push(branches[i]);
                assert(all@ =~= branches@.take(i + 1));
                i += 1;
            }
            assert(branches@.take(branches@.len() as int) =~= branches@);
            (all, next)
        },
        DistributionStrategy::RoundRobin => {
            let target = branches[next % branches.len()];
            let after = if next == usize::MAX {
                0
            } else {
                next + 1
            };
            let v = vec![target];
            assert(v@ =~= seq![branches@[(next as int) % (branches@.len() as int)]]);
            (v, after)
        },
    }
}

/// The progress of a converger: its input ports in name order, and which
/// of them have ended their stream.
pub struct Convergence {
    ports: Vec<String>,
    finished: Vec<bool>,
}

impl Convergence {
    /// The input ports, in name order.
    pub closed spec fn ports(&self) -> Seq<Seq<char>> {
        crate::graph::spec::texts(self.ports@)
    }

    /// Which input ports have ended their stream.
    pub closed spec fn finished(&self) -> Seq<bool> {
        self.finished@
    }

    /// The ports are in strictly ascending order, one flag for each.
    pub closed spec fn wf(&self) -> bool {
        &&& ascending(self.ports@)
        &&& self.finished@.len() == self.ports@.len()
    }

    /// A converger over the input ports `inputs`, none of them ended yet;
    /// a converger needs at least one input.
    pub fn new(inputs: &Vec<String>) -> (r: Result<Convergence, GraphError>)
        ensures
            inputs@.len() == 0 ==> (r matches Err(GraphError::Config(m)) && m@ == "converger requires at least one input"@),
            inputs@.len() > 0 ==> (r matches Ok(c) && c.wf() && (forall|t: Seq<char>|
                c.ports().contains(t) <==> crate::graph::spec::texts(inputs@).contains(t)) && forall|i: int|
                0 <= i < c.finished().len() ==> !#[trigger] c.finished()[i]),
    {
        if inputs.len() == 0 {
            return Err(GraphError::Config("converger requires at least one input".to_string()));
        }
        let ghost given = crate::graph::spec::texts(inputs@);
        let mut ports: Vec<String> = Vec::new();
        let mut i: usize = 0;
        while i < inputs.len()
            invariant
                given == crate::graph::spec::texts(inputs@),
                i <= inputs@.len(),
                ascending(ports@),
                forall|t: Seq<char>| holds(ports@, t) <==> given.take(i as int).contains(t),
            decreases inputs@.len() - i,
        {
            insert_sorted(&mut ports, inputs[i].as_str());
            proof {
                let before = given.take(i as int);
                let after = given.take(i + 1);
                assert(after =~= before.push(inputs@[i as int]@));
                assert forall|t: Seq<char>| holds(ports@, t) <==> after.contains(t) by {
                    if after.contains(t) {
                        let j = choose|j: int| 0 <= j < after.len() && #[trigger] after[j] == t;
                        if j < i {
                            assert(before[j] == t);
                        }
                    }
                    if before.contains(t) {
                        let j = choose|j: int| 0 <= j < before.len() && #[trigger] before[j] == t;
                        assert(after[j] == t);
                    }
                    if t == inputs@[i as int]@ {
                        assert(after[i as int] == t);
                    }
                }
            }
            i += 1;
        }
        assert(given.take(inputs@.len() as int) =~= given);
        let mut finished: Vec<bool> = Vec::new();
        while finished.len() < ports.len()
            invariant
                finished@.len() <= ports@.len(),
                forall|k: int| 0 <= k < finished@.len() ==> !#[trigger] finished@[k],
            decreases ports@.len() - finished@.len(),
        {
            finished.push(false);
        }
        let c = Convergence { ports, finished };
        proof {
            assert forall|t: Seq<char>| c.ports().contains(t) <==> given.contains(t) by {
                if c.ports().contains(t) {
                    let j = choose|j: int| 0 <= j < c.ports().len() && #[trigger] c.ports()[j] == t;
                    assert(c.ports@[j]@ == t);
                }
                if holds(c.ports@, t) {
                    let j = choose|j: int| 0 <= j < c.ports@.len() && (#[trigger] c.ports@[j])@ == t;
                    assert(c.ports()[j] == t);
                }
            }
        }
        Ok(c)
    }

    /// The input ports still open, in name order: those to poll next.
    pub fn open_ports(&self) -> (r: Vec<String>)
        requires
            self.wf(),
        ensures
            crate::graph::spec::texts(r@) == open_list(self.ports(), self.finished()),
    {
        let ghost ps = self.ports();
        let mut out: Vec<String> = Vec::new();
        let mut i: usize = 0;
        while i < self.ports.len()
            invariant
                self.wf(),
                ps == self.ports(),
                i <= self.ports@.len(),
                crate::graph::spec::texts(out@) == open_list(ps.take(i as int), self.finished@.take(i as int)),
            decreases self.ports@.len() - i,
        {
            proof {
                assert(ps.take(i + 1).drop_last() =~= ps.take(i as int));
                assert(self.finished@.take(i + 1).drop_last() =~= self.finished@.take(i as int));
                assert(ps.take(i + 1).last() == self.ports@[i as int]@);
            }
            if !self.finished[i] {
                out.push(self.ports[i].clone());
                assert(crate::graph::spec::texts(out@) =~= crate::graph::spec::texts(out@.drop_last()).push(
                    self.ports@[i as int]@,
                ));
            }
            i += 1;
        }
        assert(ps.take(self.ports@.len() as int) =~= ps);
        assert(self.finished@.take(self.ports@.len() as int) =~= self.finished@);
        out
    }

    /// Records that `port` ended its stream.
    pub fn port_ended(&mut self, port: &str)
        requires
            old(self).wf(),
        ensures
            final(self).wf(),
            final(self).ports() == old(self).ports(),
            forall|i: int|
                0 <= i < final(self).finished().len() ==> #[trigger] final(self).finished()[i] == (old(
                    self,
                ).finished()[i] || old(self).ports()[i] == port@),
    {
        let mut i: usize = 0;
        while i < self.ports.len()
            invariant
                self.ports@ == old(self).ports@,
                self.finished@.len() == old(self).finished@.len(),
                old(self).wf(),
                i <= self.ports@.len(),
                forall|k: int|
                    0 <= k < i ==> #[trigger] self.finished@[k] == (old(self).finished@[k] || old(self).ports@[k]@
                        == port@),
                forall|k: int| i <= k < self.finished@.len() ==> #[trigger] self.finished@[k] == old(self).finished@[k],
            decreases self.ports@.len() - i,
        {
            if str_eq(self.ports[i].as_str(), port) {
                self.finished.set(i, true);
            }
            i += 1;
        }
    }

    /// Whether every input port has ended its stream.
    pub fn is_done(&self) -> (r: bool)
        requires
            self.wf(),
        ensures
            r == forall|i: int| 0 <= i < self.finished().len() ==> #[trigger] self.finished()[i],
    {
        let mut i: usize = 0;
        while i < self.finished.len()
            invariant
                i <= self.finished@.len(),
                forall|k: int| 0 <= k < i ==> #[trigger] self.finished@[k],
            decreases self.finished@.len() - i,
        {
            if !self.finished[i] {
                assert(!self.finished()[i as int]);
                return false;
            }
            i += 1;
        }
        true
    }
}

/// The ports whose flag is not set, in order.
pub open spec fn open_list(ports: Seq<Seq<char>>, finished: Seq<bool>) -> Seq<Seq<char>>
    decreases ports.len(),
{
    if ports.len() == 0 || finished.len() != ports.len() {
        Seq::empty()
    } else if finished.last() {
        open_list(ports.drop_last(), finished.drop_last())
    } else {
        open_list(ports.drop_last(), finished.drop_last()).push(ports.last())
    }
}

/// What a converger concludes after polling its open ports once: a round
/// that received nothing while the graph is stopping ends it.
pub fn converger_round(received: bool, should_stop: bool) -> (r: Result<(), GraphError>)
    ensures
        !received && should_stop ==> r == Err::<(), GraphError>(GraphError::NotRunning),
        received || !should_stop ==> r is Ok,
{
    if !received && should_stop {
        return Err(GraphError::NotRunning);
    }
    Ok(())
}

} // verus!
