//! Programmatic handlers and the parameters they declare.
use crate::request_helper::{ParameterModel, RequestParameter, RequestParameterValue};
use crate::text::{bytes_eq, to_vec};
use crate::types::{parameter_models, HttpRequest};
use vstd::prelude::*;

verus! {

/// Where a handler expects a parameter.
#[derive(Structural, PartialEq, Eq, Clone, Copy, Debug)]
pub enum ResourceParameterLocation {
    Path,
    Query,
}

/// The primitive type that a handler declares for a parameter. The type is
/// recorded only: values are handed on as they were written.
#[derive(Structural, PartialEq, Eq, Clone, Copy, Debug)]
pub enum ResourceParameterType {
    String,
    I8,
}

/// One parameter that a handler declares: its name, where it is expected
/// and its type.
pub struct ResourceParameter {
    name: Vec<u8>,
    l_type: ResourceParameterLocation,
    p_type: ResourceParameterType,
}

/// The mathematical content of a declared parameter.
pub struct SchemaModel {
    pub name: Seq<u8>,
    pub location: ResourceParameterLocation,
    pub kind: ResourceParameterType,
}

impl View for ResourceParameter {
    type V = SchemaModel;

    closed spec fn view(&self) -> SchemaModel {
        SchemaModel { name: self.name@, location: self.l_type, kind: self.p_type }
    }
}

impl ResourceParameter {
    /// Declares a text parameter.
    pub fn p_string(name: Vec<u8>, l_type: ResourceParameterLocation) -> (r: ResourceParameter)
        ensures
            r@ == (SchemaModel { name: name@, location: l_type, kind: ResourceParameterType::String }),
    {
        ResourceParameter { name, l_type, p_type: ResourceParameterType::String }
    }

    /// Declares an 8-bit integer parameter.
    pub fn p_i8(name: Vec<u8>, l_type: ResourceParameterLocation) -> (r: ResourceParameter)
        ensures
            r@ == (SchemaModel { name: name@, location: l_type, kind: ResourceParameterType::I8 }),
    {
        ResourceParameter { name, l_type, p_type: ResourceParameterType::I8 }
    }
}

/// The models of a list of declared parameters.
pub open spec fn schema_models(parameters: Seq<ResourceParameter>) -> Seq<SchemaModel> {
    parameters.map_values(|p: ResourceParameter| p@)
}

/// Where a request parameter was found.
pub open spec fn location_of(p: ParameterModel) -> ResourceParameterLocation {
    match p {
        ParameterModel::Query(_, _) => ResourceParameterLocation::Query,
        ParameterModel::Path(_, _) => ResourceParameterLocation::Path,
    }
}

/// The schema declares a parameter of this name at this location.
pub open spec fn declares(schema: Seq<SchemaModel>, p: ParameterModel) -> bool {
    exists|i: int|
        0 <= i < schema.len() && (#[trigger] schema[i]).name == p.name() && schema[i].location
            == location_of(p)
}

/// The parameters of a request that a schema lets through, in their order.
pub open spec fn accepted(schema: Seq<SchemaModel>, params: Seq<ParameterModel>) -> Seq<
    ParameterModel,
> {
    params.filter(|p: ParameterModel| declares(schema, p))
}

/// What a schema lets through of one more parameter.
pub proof fn lemma_accepted_step(schema: Seq<SchemaModel>, params: Seq<ParameterModel>, k: int)
    requires
        0 <= k < params.len(),
    ensures
        accepted(schema, params.take(k + 1)) == if declares(schema, params[k]) {
            accepted(schema, params.take(k)).push(params[k])
        } else {
            accepted(schema, params.take(k))
        },
{
    assert(params.take(k + 1) =~= params.take(k).push(params[k]));
    params.take(k).lemma_filter_push(params[k], |p: ParameterModel| declares(schema, p));
}

/// `body` is what the function `f` returned for arguments with the models
/// `args`.
pub open spec fn handler_returns<F: Fn(&Vec<RequestParameter>) -> Vec<u8>>(
    f: F,
    args: Seq<ParameterModel>,
    body: Seq<u8>,
) -> bool {
    exists|a: Vec<RequestParameter>, b: Vec<u8>|
        parameter_models(a@) == args && b@ == body && #[trigger] call_ensures(f, (&a,), b)
}

/// A handler: a function from the accepted parameters to a response body,
/// with the parameters it declares. The function takes any list of
/// parameters.
pub struct ResourceHandler<F: Fn(&Vec<RequestParameter>) -> Vec<u8>> {
    parameters: Vec<ResourceParameter>,
    handler: F,
}

/// A copy of a request parameter.
pub fn copy_parameter(p: &RequestParameter) -> (r: RequestParameter)
    ensures
        r@ == p@,
{
    match p {
        RequestParameter::Query(v) => RequestParameter::Query(
            RequestParameterValue {
                name: to_vec(v.name.as_slice()),
                value: to_vec(v.value.as_slice()),
            },
        ),
        RequestParameter::Path(v) => RequestParameter::Path(
            RequestParameterValue {
                name: to_vec(v.name.as_slice()),
                value: to_vec(v.value.as_slice()),
            },
        ),
    }
}

/// Whether the declared parameters hold one of this parameter's name and
/// location.
pub fn is_declared(parameters: &Vec<ResourceParameter>, p: &RequestParameter) -> (r: bool)
    ensures
        r == declares(schema_models(parameters@), p@),
{
    let ghost schema = schema_models(parameters@);
    let mut i: usize = 0;
    while i < parameters.len()
        invariant
            i <= parameters.len(),
            schema == schema_models(parameters@),
            forall|j: int|
                0 <= j < i ==> !((#[trigger] schema[j]).name == p@.name() && schema[j].location
                    == location_of(p@)),
        decreases parameters.len() - i,
    {
        let declared = &parameters[i];
        assert(schema[i as int] == declared@);
        let hit = match p {
            RequestParameter::Query(v) => declared.l_type == ResourceParameterLocation::Query
                && bytes_eq(declared.name.as_slice(), v.name.as_slice()),
            RequestParameter::Path(v) => declared.l_type == ResourceParameterLocation::Path
                && bytes_eq(declared.name.as_slice(), v.name.as_slice()),
        };
        if hit {
            return true;
        }
        i += 1;
    }
    false
}

impl<F: Fn(&Vec<RequestParameter>) -> Vec<u8>> ResourceHandler<F> {
    #[verifier::type_invariant]
    closed spec fn inv(self) -> bool {
        forall|a: &Vec<RequestParameter>| call_requires(self.handler, (a,))
    }

    /// The parameters that the handler declares.
    pub closed spec fn schema(&self) -> Seq<SchemaModel> {
        schema_models(self.parameters@)
    }

    /// The handler's function.
    pub closed spec fn function(&self) -> F {
        self.handler
    }

    /// A handler that calls `handler` with the parameters that `parameters`
    /// declares.
    pub fn new(handler: F, parameters: Vec<ResourceParameter>) -> (r: ResourceHandler<F>)
        requires
            forall|a: &Vec<RequestParameter>| call_requires(handler, (a,)),
        ensures
            r.function() == handler,
            r.schema() == schema_models(parameters@),
    {
        ResourceHandler { parameters, handler }
    }

    /// The parameters of the request that the handler declares, in the
    /// order of the request.
    pub fn accepted_parameters(&self, request: &HttpRequest) -> (r: Vec<RequestParameter>)
        ensures
            parameter_models(r@) == accepted(self.schema(), request@.general.params),
    {
        let params = &request.general.params;
        let ghost schema = self.schema();
        let ghost all = parameter_models(params@);
        let mut out: Vec<RequestParameter> = Vec::new();
        let mut k: usize = 0;
        assert(all.take(0) =~= Seq::<ParameterModel>::empty());
        assert(parameter_models(out@) =~= Seq::<ParameterModel>::empty());
        while k < params.len()
            invariant
                k <= params.len(),
                schema == schema_models(self.parameters@),
                all == parameter_models(params@),
                parameter_models(out@) == accepted(schema, all.take(k as int)),
            decreases params.len() - k,
        {
            let p = &params[k];
            let ghost prev = parameter_models(out@);
            proof {
                lemma_accepted_step(schema, all, k as int);
            }
            if is_declared(&self.parameters, p) {
                out.push(copy_parameter(p));
                proof {
                    assert(parameter_models(out@) =~= prev.push(p@));
                }
            }
            k += 1;
        }
        assert(all.take(params.len() as int) =~= all);
        out
    }

    /// Calls the handler's function with the accepted parameters of the
    /// request and returns the body it gives.
    pub fn handle(&self, request: &HttpRequest) -> (r: Vec<u8>)
        ensures
            handler_returns(
                self.function(),
                accepted(self.schema(), request@.general.params),
                r@,
            ),
    {
        proof {
            use_type_invariant(self);
        }
        let args = self.accepted_parameters(request);
        let body = (self.handler)(&args);
        assert(call_ensures(self.handler, (&args,), body));
        body
    }
}

} // verus!
