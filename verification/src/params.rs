use vstd::prelude::*;
use vstd::string::StringExecFns;

verus! {

/// One configuration value of a stack, exactly as it is staged in the
/// editable parameter file and sent back to the remote API.
pub struct ParamJson {
    pub parameter_key: String,
    pub parameter_value: String,
    pub use_previous_value: bool,
    pub resolved_value: String,
}

/// The mathematical content of a `ParamJson`: its strings as character
/// sequences.
#[verifier::ext_equal]
pub ghost struct ParamView {
    pub parameter_key: Seq<char>,
    pub parameter_value: Seq<char>,
    pub use_previous_value: bool,
    pub resolved_value: Seq<char>,
}

impl View for ParamJson {
    type V = ParamView;

    open spec fn view(&self) -> ParamView {
        ParamView {
            parameter_key: self.parameter_key@,
            parameter_value: self.parameter_value@,
            use_previous_value: self.use_previous_value,
            resolved_value: self.resolved_value@,
        }
    }
}

/// The views of a sequence of records, element for element.
pub open spec fn params_view(s: Seq<ParamJson>) -> Seq<ParamView> {
    s.map_values(|p: ParamJson| p@)
}

/// A parameter as the remote API reports it: every field may be absent.
pub struct RawParameter {
    pub parameter_key: Option<String>,
    pub parameter_value: Option<String>,
    pub use_previous_value: Option<bool>,
    pub resolved_value: Option<String>,
}

/// One stack record of a describe-stacks response, reduced to what the
/// workflow reads from it.
pub struct RawStack {
    pub parameters: Vec<RawParameter>,
}

/// A parameter in the shape the remote update call takes: the unverified
/// shell converts each of these one for one into the API's own type.
pub struct RemoteParam {
    pub parameter_key: String,
    pub parameter_value: String,
    pub use_previous_value: bool,
    pub resolved_value: String,
}

impl View for RemoteParam {
    type V = ParamView;

    open spec fn view(&self) -> ParamView {
        ParamView {
            parameter_key: self.parameter_key@,
            parameter_value: self.parameter_value@,
            use_previous_value: self.use_previous_value,
            resolved_value: self.resolved_value@,
        }
    }
}

/// The views of a sequence of remote parameters.
pub open spec fn remote_view(s: Seq<RemoteParam>) -> Seq<ParamView> {
    s.map_values(|p: RemoteParam| p@)
}

/// The string substituted for an absent field of a fetched parameter.
pub open spec fn default_field() -> Seq<char> {
    "N/A"@
}

/// What a fetched parameter normalizes to: each absent field is replaced
/// by `"N/A"` (strings) or `false` (the boolean), never failing.
pub open spec fn normalize_spec(p: RawParameter) -> ParamView {
    ParamView {
        parameter_key: match p.parameter_key {
            Some(s) => s@,
            None => default_field(),
        },
        parameter_value: match p.parameter_value {
            Some(s) => s@,
            None => default_field(),
        },
        use_previous_value: match p.use_previous_value {
            Some(b) => b,
            None => false,
        },
        resolved_value: match p.resolved_value {
            Some(s) => s@,
            None => default_field(),
        },
    }
}

/// Substitute defaults for the absent fields of one fetched parameter.
///
/// A single malformed parameter never blocks the fetch of the rest: this
/// function is total.
pub fn normalize_parameter(p: RawParameter) -> (r: ParamJson)
    ensures
        r@ == normalize_spec(p),
{
    let RawParameter { parameter_key, parameter_value, use_previous_value, resolved_value } = p;
    ParamJson {
        parameter_key: match parameter_key {
            Some(s) => s,
            None => default_field_exec(),
        },
        parameter_value: match parameter_value {
            Some(s) => s,
            None => default_field_exec(),
        },
        use_previous_value: match use_previous_value {
            Some(b) => b,
            None => false,
        },
        resolved_value: match resolved_value {
            Some(s) => s,
            None => default_field_exec(),
        },
    }
}

/// The `"N/A"` placeholder as an owned string.
pub fn default_field_exec() -> (r: String)
    ensures
        r@ == default_field(),
{
    String::from_str("N/A")
}

/// Substitute defaults in every parameter of a fetched list, in order.
pub fn normalize_parameters(ps: Vec<RawParameter>) -> (r: Vec<ParamJson>)
    ensures
        params_view(r@) == ps@.map_values(|p: RawParameter| normalize_spec(p)),
{
    let mut out: Vec<ParamJson> = Vec::new();
    let mut ps = ps;
    let ghost all = ps@;
    let total = ps.len();
    assert(all.len() == total);
    let mut i: usize = 0;
    while ps.len() > 0
        invariant
            all.len() <= usize::MAX,
            i + ps.len() == all.len(),
            out.len() == i,
            ps@ == all.skip(i as int),
            forall|k: int| 0 <= k < i ==> #[trigger] out@[k]@ == normalize_spec(all[k]),
        decreases ps.len(),
    {
        let p = ps.remove(0);
        assert(p == all[i as int]);
        out.push(normalize_parameter(p));
        i = i + 1;
        assert(ps@ =~= all.skip(i as int));
    }
    assert(params_view(out@) =~= all.map_values(|p: RawParameter| normalize_spec(p)));
    out
}

/// Map an edited record list one for one into the shape the remote update
/// call takes, carrying every field through unchanged.
pub fn to_remote(records: Vec<ParamJson>) -> (r: Vec<RemoteParam>)
    ensures
        remote_view(r@) == params_view(records@),
{
    let mut out: Vec<RemoteParam> = Vec::new();
    let mut records = records;
    let ghost all = records@;
    let total = records.len();
    assert(all.len() == total);
    let mut i: usize = 0;
    while records.len() > 0
        invariant
            all.len() <= usize::MAX,
            i + records.len() == all.len(),
            out.len() == i,
            records@ == all.skip(i as int),
            forall|k: int| 0 <= k < i ==> #[trigger] out@[k]@ == all[k]@,
        decreases records.len(),
    {
        let p = records.remove(0);
        assert(p == all[i as int]);
        let ParamJson { parameter_key, parameter_value, use_previous_value, resolved_value } = p;
        out.push(RemoteParam { parameter_key, parameter_value, use_previous_value, resolved_value });
        i = i + 1;
        assert(records@ =~= all.skip(i as int));
    }
    assert(remote_view(out@) =~= params_view(all));
    out
}

} // verus!
