//! Evaluation of pricing conditions written in the Common Expression Language.
//!
//! Parsing and evaluating CEL is the work of the `cel_interpreter` crate;
//! this module binds the pricing variables (`item`, `customer`, `catalog`),
//! hands the expression to the interpreter through trusted items, and decides
//! what the outcome means for a condition. Only conditions in the fragment
//! described in `scan` reach the interpreter; others are refused when a rule,
//! segment or promotion is created and never hold.

use vstd::prelude::*;
use cel_interpreter::{Context, Program, Value};
use std::collections::HashMap;
use crate::text::owned;
use crate::scan::{condition_supported, supported_condition};

verus! {

/// The fields of one object bound in a CEL context: its string fields and
/// its integer fields.
pub type CelObject = (Map<Seq<char>, Seq<char>>, Map<Seq<char>, i64>);

/// The variables bound in a CEL context, each to an object.
pub type CelBindings = Map<Seq<char>, CelObject>;

/// The values the pricing variables hold when a condition is evaluated.
/// The numeric fields hold what CEL sees: the amount converted to an integer
/// as the `as i64` conversion does (toward zero, saturating, NaN as 0).
pub struct CelVars {
    pub sku: String,
    pub quantity: i64,
    pub channel: String,
    pub customer_id: String,
    pub segment: String,
    /// The identifier of the customer's segment (empty when none); rules
    /// limited to segments are matched against it. It is not a CEL variable.
    pub segment_id: String,
    pub country: String,
    pub annual_spend: i64,
    pub list_price: i64,
    pub cost: i64,
    pub category: String,
}

/// `None` when `Program::compile` accepts `source`; otherwise the `Debug`
/// rendering of the parse error it reports.
pub uninterp spec fn cel_parse_error(source: Seq<char>) -> Option<Seq<char>>;

/// The variables held by a CEL context (its root variable map).
pub uninterp spec fn cel_context_bindings(ctx: CelContext) -> CelBindings;

/// What compiling `source` with `Program::compile` and executing the program
/// with `Program::execute` yields, in a context made by `Context::default`
/// (the standard functions) that holds exactly `bindings` as variables:
/// `Some(b)` for the boolean value `b`; `None` when the source does not
/// parse, execution fails, or the value has another type. It is only ever
/// applied to sources that `supported_condition` admits: those call none of
/// the macros that walk a map in hash order (`map`, `filter`, `all`,
/// `exists`, `exists_one`) and no clock or time function, so the outcome is
/// fixed by the source and the variables (the functions of a context made by
/// `Context::default` being always the same).
pub uninterp spec fn cel_bool_outcome(source: Seq<char>, bindings: CelBindings) -> Option<bool>;

/// A context with no variables.
pub open spec fn no_bindings() -> CelBindings {
    Map::empty()
}

/// The string fields of a list of pairs; a later pair wins over an earlier
/// one with the same key.
pub open spec fn text_fields(pairs: Seq<(&str, String)>) -> Map<Seq<char>, Seq<char>>
    decreases pairs.len(),
{
    if pairs.len() == 0 {
        Map::empty()
    } else {
        text_fields(pairs.drop_last()).insert(pairs.last().0@, pairs.last().1@)
    }
}

/// The integer fields of a list of pairs; a later pair wins over an earlier
/// one with the same key.
pub open spec fn int_fields(pairs: Seq<(&str, i64)>) -> Map<Seq<char>, i64>
    decreases pairs.len(),
{
    if pairs.len() == 0 {
        Map::empty()
    } else {
        int_fields(pairs.drop_last()).insert(pairs.last().0@, pairs.last().1)
    }
}

/// The object made of string fields and integer fields, the integer fields
/// winning over string fields with the same key.
pub open spec fn object_of(
    texts: Seq<(&str, String)>,
    ints: Seq<(&str, i64)>,
) -> CelObject {
    (text_fields(texts).remove_keys(int_fields(ints).dom()), int_fields(ints))
}

/// The variables a pricing condition is evaluated against.
pub open spec fn pricing_bindings(vars: CelVars) -> CelBindings {
    Map::empty().insert(
        "item"@,
        object_of(
            seq![("sku", vars.sku), ("channel", vars.channel)],
            seq![("quantity", vars.quantity)],
        ),
    ).insert(
        "customer"@,
        object_of(
            seq![("id", vars.customer_id), ("segment", vars.segment), ("country", vars.country)],
            seq![("annual_spend", vars.annual_spend)],
        ),
    ).insert(
        "catalog"@,
        object_of(
            seq![("category", vars.category)],
            seq![("list_price", vars.list_price), ("cost", vars.cost)],
        ),
    )
}

/// A condition holds when it lies in the supported fragment, parses and
/// evaluates to the boolean `true`.
pub open spec fn cel_holds(expr: Seq<char>, vars: CelVars) -> bool {
    &&& supported_condition(expr)
    &&& cel_parse_error(expr) is None
    &&& cel_bool_outcome(expr, pricing_bindings(vars)) == Some(true)
}

/// `r` holds the variables for a request (see `CelVars::for_request`).
pub open spec fn is_request_vars(
    r: CelVars,
    sku: String,
    quantity: i64,
    channel: Option<String>,
    customer_id: Option<String>,
    country: Option<String>,
    list_price: i64,
    cost: i64,
    category: String,
) -> bool {
    &&& r.sku == sku
    &&& r.quantity == quantity
    &&& r.channel@ == (match channel {
        Some(c) => c@,
        None => "direct"@,
    })
    &&& r.customer_id@ == (match customer_id {
        Some(c) => c@,
        None => Seq::<char>::empty(),
    })
    &&& r.segment@ == Seq::<char>::empty()
    &&& r.segment_id@ == Seq::<char>::empty()
    &&& r.country@ == (match country {
        Some(c) => c@,
        None => "US"@,
    })
    &&& r.annual_spend == 0
    &&& r.list_price == list_price
    &&& r.cost == cost
    &&& r.category == category
}

impl CelVars {
    /// The variables for pricing `sku` at `quantity` (already converted to
    /// an integer): the channel is `direct` and the country `US` when absent,
    /// the customer id empty when absent; the segment is empty and the annual
    /// spend 0; `list_price`, `cost` and `category` come from the catalog.
    pub fn for_request(
        sku: String,
        quantity: i64,
        channel: Option<String>,
        customer_id: Option<String>,
        country: Option<String>,
        list_price: i64,
        cost: i64,
        category: String,
    ) -> (r: CelVars)
        ensures
            is_request_vars(r, sku, quantity, channel, customer_id, country, list_price, cost, category),
    {
        CelVars {
            sku,
            quantity,
            channel: match channel {
                Some(c) => c,
                None => owned("direct"),
            },
            customer_id: match customer_id {
                Some(c) => c,
                None => String::new(),
            },
            segment: String::new(),
            segment_id: String::new(),
            country: match country {
                Some(c) => c,
                None => owned("US"),
            },
            annual_spend: 0,
            list_price,
            cost,
            category,
        }
    }

    /// The same variables for a customer found to be in the segment with
    /// identifier `id` and name `name`.
    pub fn with_segment(self, id: String, name: String) -> (r: CelVars)
        ensures
            r == (CelVars { segment_id: id, segment: name, ..self }),
    {
        CelVars { segment_id: id, segment: name, ..self }
    }
}

/// A condition that is refused (outside the supported fragment, or not
/// parsing) never holds, whatever the variables: a rule, segment or
/// promotion could not have been created with it.
pub proof fn lemma_refused_never_holds(expr: Seq<char>, vars: CelVars)
    requires
        condition_error(expr) is Some,
    ensures
        !cel_holds(expr, vars),
{
}

/// Trusted: `cel_interpreter::Program::compile`; the program itself is
/// dropped. The outcome is a function of the source (named
/// `cel_parse_error`); an error is rendered with `Debug`. The parser unwraps
/// the conversion of integer literals that do not fit 64 bits and of strings
/// with a bad escape; `supported_condition` leaves both out.
#[verifier::external_body]
fn cel_compile(source: &str) -> (r: Result<(), String>)
    requires
        supported_condition(source@),
    ensures
        r is Ok <==> cel_parse_error(source@) is None,
        r matches Err(m) ==> cel_parse_error(source@) == Some(m@),
{
    Program::compile(source).map(|_| ()).map_err(|e| format!("{:?}", e))
}

/// Trusted: `Context::default`, a root context with the standard functions
/// and no variables.
#[verifier::external_body]
fn cel_new_context() -> (r: CelContext)
    ensures
        cel_context_bindings(r) == no_bindings(),
{
    Context::default()
}

/// Trusted: `Context::add_variable_from_value`, binding `name` to the map made
/// of the given string and integer fields (collected into a `HashMap` in
/// order, so a later field wins); an earlier binding of `name` is replaced.
#[verifier::external_body]
fn cel_bind_object(
    ctx: &mut CelContext,
    name: &str,
    texts: Vec<(&str, String)>,
    ints: Vec<(&str, i64)>,
)
    ensures
        cel_context_bindings(*final(ctx)) == cel_context_bindings(*old(ctx)).insert(
            name@,
            object_of(texts@, ints@),
        ),
{
    let fields: HashMap<&str, Value> = texts.into_iter().map(|(k, v)| (k, Value::from(v))).chain(
        ints.into_iter().map(|(k, v)| (k, Value::from(v))),
    ).collect();
    ctx.add_variable_from_value(name, fields);
}

/// Trusted: `Program::compile` on `source` followed by `Program::execute` in
/// `ctx`, reporting a `Value::Bool` result and nothing else (a parse error,
/// an execution error or a value of another type give `None`). The contexts
/// of this library are all made by `Context::default`, so the outcome is the
/// one named `cel_bool_outcome` for their variables. On the supported
/// fragment evaluation does no arithmetic or negation, indexes nothing,
/// builds no byte string (so `contains` never looks for an empty one) and
/// calls only `contains`, `size`, `has`, `max`, `min`, `startsWith`,
/// `endsWith`, `string`, `double`, `int`, `uint` and `matches`, none of
/// which panics; these are the places where the interpreter can panic. The
/// bound on operator symbols keeps its recursion (one call per level of the
/// expression) shallow.
#[verifier::external_body]
fn cel_run(source: &str, ctx: &CelContext) -> (r: Option<bool>)
    requires
        supported_condition(source@),
    ensures
        r == cel_bool_outcome(source@, cel_context_bindings(*ctx)),
        r is Some ==> cel_parse_error(source@) is None,
{
    match Program::compile(source).map(|p| p.execute(ctx)) {
        Ok(Ok(Value::Bool(b))) => Some(b),
        _ => None,
    }
}

/// The CEL context that holds the pricing variables.
fn pricing_context(vars: &CelVars) -> (r: CelContext)
    ensures
        cel_context_bindings(r) == pricing_bindings(*vars),
{
    let mut ctx = cel_new_context();
    let item_texts = vec![("sku", vars.sku.clone()), ("channel", vars.channel.clone())];
    let item_ints = vec![("quantity", vars.quantity)];
    assert(item_texts@ =~= seq![("sku", vars.sku), ("channel", vars.channel)]);
    assert(item_ints@ =~= seq![("quantity", vars.quantity)]);
    cel_bind_object(&mut ctx, "item", item_texts, item_ints);
    let customer_texts = vec![
        ("id", vars.customer_id.clone()),
        ("segment", vars.segment.clone()),
        ("country", vars.country.clone()),
    ];
    let customer_ints = vec![("annual_spend", vars.annual_spend)];
    assert(customer_texts@ =~= seq![
        ("id", vars.customer_id),
        ("segment", vars.segment),
        ("country", vars.country),
    ]);
    assert(customer_ints@ =~= seq![("annual_spend", vars.annual_spend)]);
    cel_bind_object(&mut ctx, "customer", customer_texts, customer_ints);
    let catalog_texts = vec![("category", vars.category.clone())];
    let catalog_ints = vec![("list_price", vars.list_price), ("cost", vars.cost)];
    assert(catalog_texts@ =~= seq![("category", vars.category)]);
    assert(catalog_ints@ =~= seq![("list_price", vars.list_price), ("cost", vars.cost)]);
    cel_bind_object(&mut ctx, "catalog", catalog_texts, catalog_ints);
    ctx
}

/// The error given for a condition outside the supported fragment.
pub open spec fn unsupported_message() -> Seq<char> {
    "unsupported condition: arithmetic, indexing, collection macros, byte strings, deep nesting and literals the parser cannot convert are not evaluated"@
}

/// What is wrong with a condition, if anything: it lies outside the supported
/// fragment, or the parser reports an error.
pub open spec fn condition_error(expr: Seq<char>) -> Option<Seq<char>> {
    if !supported_condition(expr) {
        Some(unsupported_message())
    } else {
        cel_parse_error(expr)
    }
}

/// Evaluates a CEL expression against the pricing variables: `true` exactly
/// when it lies in the supported fragment, parses and evaluates to the
/// boolean `true` (a parse error, an evaluation error or a non-boolean value
/// all give `false`).
pub fn eval_cel(expr: &str, vars: &CelVars) -> (r: bool)
    ensures
        r == cel_holds(expr@, *vars),
{
    if !condition_supported(expr) {
        return false;
    }
    let ctx = pricing_context(vars);
    match cel_run(expr, &ctx) {
        Some(b) => b,
        None => false,
    }
}

/// Checks that a CEL expression lies in the supported fragment and parses
/// (it is not evaluated); an error holds the report of the parser, or says
/// that the condition is not supported.
pub fn validate_cel(expr: &str) -> (r: Result<(), String>)
    ensures
        r is Ok <==> condition_error(expr@) is None,
        r matches Err(m) ==> condition_error(expr@) == Some(m@),
{
    if !condition_supported(expr) {
        return Err(owned("unsupported condition: arithmetic, indexing, collection macros, byte strings, deep nesting and literals the parser cannot convert are not evaluated"));
    }
    cel_compile(expr)
}

#[verifier::external_type_specification]
#[verifier::external_body]
pub struct ExContext<'a>(Context<'a>);

/// A root CEL context (it borrows nothing).
pub type CelContext = Context<'static>;

} // verus!
