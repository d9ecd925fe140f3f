//! The Bluebook IR: what the parser produces from a `.bluebook` source.
//!
//! Every executable type has a mathematical model (its `View`), in which
//! each `String` is the sequence of its characters; the parsers' contracts
//! are stated over these models.

use vstd::prelude::*;

verus! {

/// Each element's view.
pub open spec fn seq_view<T: View>(s: Seq<T>) -> Seq<T::V> {
    s.map_values(|x: T| x@)
}

/// The view of an optional value.
pub open spec fn opt_view<T: View>(o: Option<T>) -> Option<T::V> {
    match o {
        Some(x) => Some(x@),
        None => None,
    }
}

/// Each optional element's view.
pub open spec fn opt_seq_view<T: View>(s: Seq<Option<T>>) -> Seq<Option<T::V>> {
    s.map_values(|x: Option<T>| opt_view(x))
}

pub broadcast proof fn lemma_seq_view_push<T: View>(s: Seq<T>, x: T)
    ensures
        #[trigger] seq_view(s.push(x)) == seq_view(s).push(x@),
{
    assert(seq_view(s.push(x)) =~= seq_view(s).push(x@));
}

pub broadcast proof fn lemma_seq_view_len<T: View>(s: Seq<T>)
    ensures
        #[trigger] seq_view(s).len() == s.len(),
{
}

pub broadcast proof fn lemma_seq_view_index<T: View>(s: Seq<T>, i: int)
    requires
        0 <= i < s.len(),
    ensures
        #[trigger] seq_view(s)[i] == s[i]@,
{
}

pub broadcast proof fn lemma_seq_view_empty<T: View>(s: Seq<T>)
    requires
        s.len() == 0,
    ensures
        #[trigger] seq_view(s) == Seq::<T::V>::empty(),
{
    assert(seq_view(s) =~= Seq::<T::V>::empty());
}

pub broadcast group group_views {
    lemma_seq_view_push,
    lemma_seq_view_len,
    lemma_seq_view_index,
    lemma_seq_view_empty,
}

// ---------------------------------------------------------------------
// Attributes and references
// ---------------------------------------------------------------------

/// One declared attribute.
#[derive(Debug, Clone)]
pub struct Attribute {
    pub name: String,
    pub attr_type: String,
    pub default: Option<String>,
    pub list: bool,
    pub required: bool,
    pub enum_values: Vec<String>,
    pub pattern: Option<String>,
    pub hint: Option<String>,
    pub logged: bool,
}

pub struct AttributeModel {
    pub name: Seq<char>,
    pub attr_type: Seq<char>,
    pub default: Option<Seq<char>>,
    pub list: bool,
    pub required: bool,
    pub enum_values: Seq<Seq<char>>,
    pub pattern: Option<Seq<char>>,
    pub hint: Option<Seq<char>>,
    pub logged: bool,
}

impl View for Attribute {
    type V = AttributeModel;

    open spec fn view(&self) -> AttributeModel {
        AttributeModel {
            name: self.name@,
            attr_type: self.attr_type@,
            default: opt_view(self.default),
            list: self.list,
            required: self.required,
            enum_values: seq_view(self.enum_values@),
            pattern: opt_view(self.pattern),
            hint: opt_view(self.hint),
            logged: self.logged,
        }
    }
}

/// Which relationship DSL word declared a reference.
#[derive(Debug, Clone, Copy, PartialEq, Eq, Structural)]
pub enum ReferenceKind {
    LegacyReferenceTo,
    HasMany,
    HasOne,
    BelongsTo,
}

/// How many target records a reference holds.
#[derive(Debug, Clone, Copy, PartialEq, Eq, Structural)]
pub enum Cardinality {
    Single,
    Many,
}

/// A reference from an aggregate (or command) to another aggregate.
#[derive(Debug, Clone)]
pub struct Reference {
    pub name: String,
    pub target: String,
    pub domain: Option<String>,
    pub cardinality: Cardinality,
    pub kind: ReferenceKind,
}

pub struct ReferenceModel {
    pub name: Seq<char>,
    pub target: Seq<char>,
    pub domain: Option<Seq<char>>,
    pub cardinality: Cardinality,
    pub kind: ReferenceKind,
}

impl View for Reference {
    type V = ReferenceModel;

    open spec fn view(&self) -> ReferenceModel {
        ReferenceModel {
            name: self.name@,
            target: self.target@,
            domain: opt_view(self.domain),
            cardinality: self.cardinality,
            kind: self.kind,
        }
    }
}

pub open spec fn reference_model(
    name: Seq<char>,
    target: Seq<char>,
    domain: Option<Seq<char>>,
    cardinality: Cardinality,
    kind: ReferenceKind,
) -> ReferenceModel {
    ReferenceModel { name, target, domain, cardinality, kind }
}

impl Reference {
    /// `reference_to` — a single legacy reference.
    pub fn single(name: String, target: String, domain: Option<String>) -> (r: Reference)
        ensures
            r@ == reference_model(name@, target@, opt_view(domain), Cardinality::Single,
                ReferenceKind::LegacyReferenceTo),
    {
        Reference { name, target, domain, cardinality: Cardinality::Single, kind: ReferenceKind::LegacyReferenceTo }
    }

    /// `has_many` — the owner side of a collection.
    pub fn many(name: String, target: String, domain: Option<String>) -> (r: Reference)
        ensures
            r@ == reference_model(name@, target@, opt_view(domain), Cardinality::Many,
                ReferenceKind::HasMany),
    {
        Reference { name, target, domain, cardinality: Cardinality::Many, kind: ReferenceKind::HasMany }
    }

    /// `has_one` — the owner side of a single.
    pub fn has_one(name: String, target: String, domain: Option<String>) -> (r: Reference)
        ensures
            r@ == reference_model(name@, target@, opt_view(domain), Cardinality::Single,
                ReferenceKind::HasOne),
    {
        Reference { name, target, domain, cardinality: Cardinality::Single, kind: ReferenceKind::HasOne }
    }

    /// `belongs_to` — the dependent side of a single.
    pub fn belongs_to(name: String, target: String, domain: Option<String>) -> (r: Reference)
        ensures
            r@ == reference_model(name@, target@, opt_view(domain), Cardinality::Single,
                ReferenceKind::BelongsTo),
    {
        Reference { name, target, domain, cardinality: Cardinality::Single, kind: ReferenceKind::BelongsTo }
    }
}

// ---------------------------------------------------------------------
// Commands
// ---------------------------------------------------------------------

/// A precondition on a command.
#[derive(Debug, Clone)]
pub struct Given {
    pub expression: String,
    pub message: Option<String>,
}

pub struct GivenModel {
    pub expression: Seq<char>,
    pub message: Option<Seq<char>>,
}

impl View for Given {
    type V = GivenModel;

    open spec fn view(&self) -> GivenModel {
        GivenModel { expression: self.expression@, message: opt_view(self.message) }
    }
}

#[derive(Debug, Clone, Copy, PartialEq, Eq, Structural)]
pub enum MutationOp {
    Assign,
    Append,
    AppendUnique,
    Remove,
    Increment,
    Decrement,
    Multiply,
    Clamp,
    Decay,
    Toggle,
    Delete,
}

/// A `then_set` / `then_toggle` / `then_delete` effect.
#[derive(Debug, Clone)]
pub struct Mutation {
    pub field: String,
    pub operation: MutationOp,
    pub value: String,
    pub invalid_op: Option<String>,
}

pub struct MutationModel {
    pub field: Seq<char>,
    pub operation: MutationOp,
    pub value: Seq<char>,
    pub invalid_op: Option<Seq<char>>,
}

impl View for Mutation {
    type V = MutationModel;

    open spec fn view(&self) -> MutationModel {
        MutationModel {
            field: self.field@,
            operation: self.operation,
            value: self.value@,
            invalid_op: opt_view(self.invalid_op),
        }
    }
}

#[derive(Debug, Clone)]
pub struct Command {
    pub name: String,
    pub description: Option<String>,
    pub role: Option<String>,
    pub attributes: Vec<Attribute>,
    pub references: Vec<Reference>,
    pub emits: Option<String>,
    pub emits_identified_by: Option<String>,
    pub givens: Vec<Given>,
    pub mutations: Vec<Mutation>,
    pub redirects_native: Vec<String>,
}

pub struct CommandModel {
    pub name: Seq<char>,
    pub description: Option<Seq<char>>,
    pub role: Option<Seq<char>>,
    pub attributes: Seq<AttributeModel>,
    pub references: Seq<ReferenceModel>,
    pub emits: Option<Seq<char>>,
    pub emits_identified_by: Option<Seq<char>>,
    pub givens: Seq<GivenModel>,
    pub mutations: Seq<MutationModel>,
    pub redirects_native: Seq<Seq<char>>,
}

impl View for Command {
    type V = CommandModel;

    open spec fn view(&self) -> CommandModel {
        CommandModel {
            name: self.name@,
            description: opt_view(self.description),
            role: opt_view(self.role),
            attributes: seq_view(self.attributes@),
            references: seq_view(self.references@),
            emits: opt_view(self.emits),
            emits_identified_by: opt_view(self.emits_identified_by),
            givens: seq_view(self.givens@),
            mutations: seq_view(self.mutations@),
            redirects_native: seq_view(self.redirects_native@),
        }
    }
}

/// A birth: a command that mints an aggregate.
#[derive(Debug, Clone)]
pub struct Factory {
    pub name: String,
    pub description: Option<String>,
    pub role: Option<String>,
    pub produces: Option<String>,
    pub attributes: Vec<Attribute>,
    pub references: Vec<Reference>,
    pub emits: Option<String>,
    pub emits_identified_by: Option<String>,
    pub givens: Vec<Given>,
    pub mutations: Vec<Mutation>,
}

pub struct FactoryModel {
    pub name: Seq<char>,
    pub description: Option<Seq<char>>,
    pub role: Option<Seq<char>>,
    pub produces: Option<Seq<char>>,
    pub attributes: Seq<AttributeModel>,
    pub references: Seq<ReferenceModel>,
    pub emits: Option<Seq<char>>,
    pub emits_identified_by: Option<Seq<char>>,
    pub givens: Seq<GivenModel>,
    pub mutations: Seq<MutationModel>,
}

impl View for Factory {
    type V = FactoryModel;

    open spec fn view(&self) -> FactoryModel {
        FactoryModel {
            name: self.name@,
            description: opt_view(self.description),
            role: opt_view(self.role),
            produces: opt_view(self.produces),
            attributes: seq_view(self.attributes@),
            references: seq_view(self.references@),
            emits: opt_view(self.emits),
            emits_identified_by: opt_view(self.emits_identified_by),
            givens: seq_view(self.givens@),
            mutations: seq_view(self.mutations@),
        }
    }
}

// ---------------------------------------------------------------------
// Queries
// ---------------------------------------------------------------------

#[derive(Debug, Clone, Copy, PartialEq, Eq, Structural)]
pub enum WhereOp {
    Eq,
    Ne,
    Lt,
    Lte,
    Gt,
    Gte,
    In,
    NoneInState,
    Contains,
}

#[derive(Debug, Clone)]
pub struct WhereClause {
    pub field: String,
    pub op: WhereOp,
    pub value: String,
}

pub struct WhereClauseModel {
    pub field: Seq<char>,
    pub op: WhereOp,
    pub value: Seq<char>,
}

impl View for WhereClause {
    type V = WhereClauseModel;

    open spec fn view(&self) -> WhereClauseModel {
        WhereClauseModel { field: self.field@, op: self.op, value: self.value@ }
    }
}

#[derive(Debug, Clone, Copy, PartialEq, Eq, Structural)]
pub enum Direction {
    Asc,
    Desc,
}

#[derive(Debug, Clone)]
pub struct OrderBy {
    pub field: String,
    pub direction: Direction,
}

pub struct OrderByModel {
    pub field: Seq<char>,
    pub direction: Direction,
}

impl View for OrderBy {
    type V = OrderByModel;

    open spec fn view(&self) -> OrderByModel {
        OrderByModel { field: self.field@, direction: self.direction }
    }
}

#[derive(Debug, Clone)]
pub struct LimitSpec {
    pub value: String,
}

impl View for LimitSpec {
    type V = Seq<char>;

    open spec fn view(&self) -> Seq<char> {
        self.value@
    }
}

/// A scalar fold over the matched records.
#[derive(Debug, Clone)]
pub enum Reduction {
    Count,
    Sum(String),
    Median(String),
    Max(String),
    Min(String),
}

pub enum ReductionModel {
    Count,
    Sum(Seq<char>),
    Median(Seq<char>),
    Max(Seq<char>),
    Min(Seq<char>),
}

impl View for Reduction {
    type V = ReductionModel;

    open spec fn view(&self) -> ReductionModel {
        match self {
            Reduction::Count => ReductionModel::Count,
            Reduction::Sum(f) => ReductionModel::Sum(f@),
            Reduction::Median(f) => ReductionModel::Median(f@),
            Reduction::Max(f) => ReductionModel::Max(f@),
            Reduction::Min(f) => ReductionModel::Min(f@),
        }
    }
}

#[derive(Debug, Clone)]
pub struct Query {
    pub name: String,
    pub description: Option<String>,
    pub attributes: Vec<Attribute>,
    pub wheres: Vec<WhereClause>,
    pub order_by: Option<OrderBy>,
    pub limit: Option<LimitSpec>,
    pub reduction: Option<Reduction>,
    pub group_by: Option<String>,
    pub scope_to: Option<String>,
}

pub struct QueryModel {
    pub name: Seq<char>,
    pub description: Option<Seq<char>>,
    pub attributes: Seq<AttributeModel>,
    pub wheres: Seq<WhereClauseModel>,
    pub order_by: Option<OrderByModel>,
    pub limit: Option<Seq<char>>,
    pub reduction: Option<ReductionModel>,
    pub group_by: Option<Seq<char>>,
    pub scope_to: Option<Seq<char>>,
}

impl View for Query {
    type V = QueryModel;

    open spec fn view(&self) -> QueryModel {
        QueryModel {
            name: self.name@,
            description: opt_view(self.description),
            attributes: seq_view(self.attributes@),
            wheres: seq_view(self.wheres@),
            order_by: opt_view(self.order_by),
            limit: opt_view(self.limit),
            reduction: opt_view(self.reduction),
            group_by: opt_view(self.group_by),
            scope_to: opt_view(self.scope_to),
        }
    }
}

// ---------------------------------------------------------------------
// Value objects, entities, lifecycles
// ---------------------------------------------------------------------

#[derive(Debug, Clone)]
pub struct Invariant {
    pub name: String,
    pub expression: String,
}

pub struct InvariantModel {
    pub name: Seq<char>,
    pub expression: Seq<char>,
}

impl View for Invariant {
    type V = InvariantModel;

    open spec fn view(&self) -> InvariantModel {
        InvariantModel { name: self.name@, expression: self.expression@ }
    }
}

#[derive(Debug, Clone)]
pub struct Derivation {
    pub name: String,
    pub return_type: String,
    pub params: Vec<String>,
    pub expression: String,
}

pub struct DerivationModel {
    pub name: Seq<char>,
    pub return_type: Seq<char>,
    pub params: Seq<Seq<char>>,
    pub expression: Seq<char>,
}

impl View for Derivation {
    type V = DerivationModel;

    open spec fn view(&self) -> DerivationModel {
        DerivationModel {
            name: self.name@,
            return_type: self.return_type@,
            params: seq_view(self.params@),
            expression: self.expression@,
        }
    }
}

#[derive(Debug, Clone)]
pub struct ValueObject {
    pub name: String,
    pub description: Option<String>,
    pub attributes: Vec<Attribute>,
    pub invariants: Vec<Invariant>,
    pub derivations: Vec<Derivation>,
    pub members: Vec<Vec<(String, String)>>,
}

pub struct ValueObjectModel {
    pub name: Seq<char>,
    pub description: Option<Seq<char>>,
    pub attributes: Seq<AttributeModel>,
    pub invariants: Seq<InvariantModel>,
    pub derivations: Seq<DerivationModel>,
    pub members: Seq<Seq<(Seq<char>, Seq<char>)>>,
}

/// The view of a value object's members.
pub open spec fn members_view(v: Seq<Vec<(String, String)>>) -> Seq<Seq<(Seq<char>, Seq<char>)>> {
    v.map_values(|m: Vec<(String, String)>| seq_view(m@))
}

impl View for ValueObject {
    type V = ValueObjectModel;

    open spec fn view(&self) -> ValueObjectModel {
        ValueObjectModel {
            name: self.name@,
            description: opt_view(self.description),
            attributes: seq_view(self.attributes@),
            invariants: seq_view(self.invariants@),
            derivations: seq_view(self.derivations@),
            members: members_view(self.members@),
        }
    }
}

#[derive(Debug, Clone)]
pub struct Transition {
    pub command: String,
    pub to_state: String,
    pub from_state: Option<String>,
}

pub struct TransitionModel {
    pub command: Seq<char>,
    pub to_state: Seq<char>,
    pub from_state: Option<Seq<char>>,
}

impl View for Transition {
    type V = TransitionModel;

    open spec fn view(&self) -> TransitionModel {
        TransitionModel {
            command: self.command@,
            to_state: self.to_state@,
            from_state: opt_view(self.from_state),
        }
    }
}

#[derive(Debug, Clone)]
pub struct Lifecycle {
    pub field: String,
    pub default: String,
    pub transitions: Vec<Transition>,
}

pub struct LifecycleModel {
    pub field: Seq<char>,
    pub default: Seq<char>,
    pub transitions: Seq<TransitionModel>,
}

impl View for Lifecycle {
    type V = LifecycleModel;

    open spec fn view(&self) -> LifecycleModel {
        LifecycleModel {
            field: self.field@,
            default: self.default@,
            transitions: seq_view(self.transitions@),
        }
    }
}

#[derive(Debug, Clone)]
pub struct Entity {
    pub name: String,
    pub description: Option<String>,
    pub attributes: Vec<Attribute>,
    pub commands: Vec<Command>,
    pub queries: Vec<Query>,
    pub lifecycle: Option<Lifecycle>,
    pub identified_by: Option<String>,
}

pub struct EntityModel {
    pub name: Seq<char>,
    pub description: Option<Seq<char>>,
    pub attributes: Seq<AttributeModel>,
    pub commands: Seq<CommandModel>,
    pub queries: Seq<QueryModel>,
    pub lifecycle: Option<LifecycleModel>,
    pub identified_by: Option<Seq<char>>,
}

impl View for Entity {
    type V = EntityModel;

    open spec fn view(&self) -> EntityModel {
        EntityModel {
            name: self.name@,
            description: opt_view(self.description),
            attributes: seq_view(self.attributes@),
            commands: seq_view(self.commands@),
            queries: seq_view(self.queries@),
            lifecycle: opt_view(self.lifecycle),
            identified_by: opt_view(self.identified_by),
        }
    }
}

// ---------------------------------------------------------------------
// Policies, dispatches, process managers, cadences
// ---------------------------------------------------------------------

/// Where a dispatched attribute's value comes from.
#[derive(Debug, Clone)]
pub enum ValueSpec {
    Literal { value: String },
    FromEvent { name: String, default: Option<String> },
    FromPm { name: String, default: Option<String> },
    FromIter { field: String },
}

pub enum ValueSpecModel {
    Literal { value: Seq<char> },
    FromEvent { name: Seq<char>, default: Option<Seq<char>> },
    FromPm { name: Seq<char>, default: Option<Seq<char>> },
    FromIter { field: Seq<char> },
}

impl View for ValueSpec {
    type V = ValueSpecModel;

    open spec fn view(&self) -> ValueSpecModel {
        match self {
            ValueSpec::Literal { value } => ValueSpecModel::Literal { value: value@ },
            ValueSpec::FromEvent { name, default } => ValueSpecModel::FromEvent {
                name: name@,
                default: opt_view(*default),
            },
            ValueSpec::FromPm { name, default } => ValueSpecModel::FromPm {
                name: name@,
                default: opt_view(*default),
            },
            ValueSpec::FromIter { field } => ValueSpecModel::FromIter { field: field@ },
        }
    }
}

/// A sweep: run a dispatch once per record a query returns.
#[derive(Debug, Clone)]
pub struct ForEachSpec {
    pub source_context: Option<String>,
    pub source_aggregate: String,
    pub query_name: String,
    pub query_inputs: Vec<(String, ValueSpec)>,
}

pub struct ForEachSpecModel {
    pub source_context: Option<Seq<char>>,
    pub source_aggregate: Seq<char>,
    pub query_name: Seq<char>,
    pub query_inputs: Seq<(Seq<char>, ValueSpecModel)>,
}

impl View for ForEachSpec {
    type V = ForEachSpecModel;

    open spec fn view(&self) -> ForEachSpecModel {
        ForEachSpecModel {
            source_context: opt_view(self.source_context),
            source_aggregate: self.source_aggregate@,
            query_name: self.query_name@,
            query_inputs: seq_view(self.query_inputs@),
        }
    }
}

#[derive(Debug, Clone)]
pub struct DispatchSpec {
    pub command_name: String,
    pub with_spec: Vec<(String, ValueSpec)>,
    pub for_each: Option<ForEachSpec>,
}

pub struct DispatchSpecModel {
    pub command_name: Seq<char>,
    pub with_spec: Seq<(Seq<char>, ValueSpecModel)>,
    pub for_each: Option<ForEachSpecModel>,
}

impl View for DispatchSpec {
    type V = DispatchSpecModel;

    open spec fn view(&self) -> DispatchSpecModel {
        DispatchSpecModel {
            command_name: self.command_name@,
            with_spec: seq_view(self.with_spec@),
            for_each: opt_view(self.for_each),
        }
    }
}

#[derive(Debug, Clone)]
pub struct Policy {
    pub name: String,
    pub on_event: String,
    pub trigger_command: String,
    pub target_domain: Option<String>,
    pub with: Vec<(String, ValueSpec)>,
    pub wheres: Vec<WhereClause>,
    pub for_each: Option<ForEachSpec>,
    pub extra_dispatches: Vec<DispatchSpec>,
}

pub struct PolicyModel {
    pub name: Seq<char>,
    pub on_event: Seq<char>,
    pub trigger_command: Seq<char>,
    pub target_domain: Option<Seq<char>>,
    pub with: Seq<(Seq<char>, ValueSpecModel)>,
    pub wheres: Seq<WhereClauseModel>,
    pub for_each: Option<ForEachSpecModel>,
    pub extra_dispatches: Seq<DispatchSpecModel>,
}

impl View for Policy {
    type V = PolicyModel;

    open spec fn view(&self) -> PolicyModel {
        PolicyModel {
            name: self.name@,
            on_event: self.on_event@,
            trigger_command: self.trigger_command@,
            target_domain: opt_view(self.target_domain),
            with: seq_view(self.with@),
            wheres: seq_view(self.wheres@),
            for_each: opt_view(self.for_each),
            extra_dispatches: seq_view(self.extra_dispatches@),
        }
    }
}

#[derive(Debug, Clone)]
pub struct Fixture {
    pub name: Option<String>,
    pub aggregate_name: String,
    pub attributes: Vec<(String, String)>,
}

pub struct FixtureModel {
    pub name: Option<Seq<char>>,
    pub aggregate_name: Seq<char>,
    pub attributes: Seq<(Seq<char>, Seq<char>)>,
}

impl View for Fixture {
    type V = FixtureModel;

    open spec fn view(&self) -> FixtureModel {
        FixtureModel {
            name: opt_view(self.name),
            aggregate_name: self.aggregate_name@,
            attributes: seq_view(self.attributes@),
        }
    }
}

#[derive(Debug, Clone)]
pub struct ProcessManagerHandler {
    pub event_type: String,
    pub from_state: String,
    pub to_state: String,
    pub dispatches: Vec<DispatchSpec>,
    pub set_specs: Vec<(String, ValueSpec)>,
}

pub struct ProcessManagerHandlerModel {
    pub event_type: Seq<char>,
    pub from_state: Seq<char>,
    pub to_state: Seq<char>,
    pub dispatches: Seq<DispatchSpecModel>,
    pub set_specs: Seq<(Seq<char>, ValueSpecModel)>,
}

impl View for ProcessManagerHandler {
    type V = ProcessManagerHandlerModel;

    open spec fn view(&self) -> ProcessManagerHandlerModel {
        ProcessManagerHandlerModel {
            event_type: self.event_type@,
            from_state: self.from_state@,
            to_state: self.to_state@,
            dispatches: seq_view(self.dispatches@),
            set_specs: seq_view(self.set_specs@),
        }
    }
}

#[derive(Debug, Clone)]
pub struct ProcessManager {
    pub name: String,
    pub correlates_by: String,
    pub starts_on: String,
    pub ends_on: Option<String>,
    pub states: Vec<String>,
    pub handlers: Vec<ProcessManagerHandler>,
}

pub struct ProcessManagerModel {
    pub name: Seq<char>,
    pub correlates_by: Seq<char>,
    pub starts_on: Seq<char>,
    pub ends_on: Option<Seq<char>>,
    pub states: Seq<Seq<char>>,
    pub handlers: Seq<ProcessManagerHandlerModel>,
}

impl View for ProcessManager {
    type V = ProcessManagerModel;

    open spec fn view(&self) -> ProcessManagerModel {
        ProcessManagerModel {
            name: self.name@,
            correlates_by: self.correlates_by@,
            starts_on: self.starts_on@,
            ends_on: opt_view(self.ends_on),
            states: seq_view(self.states@),
            handlers: seq_view(self.handlers@),
        }
    }
}

#[derive(Debug, Clone)]
pub struct CadenceDispatch {
    pub command_name: String,
    pub attrs: Vec<(String, String)>,
}

pub struct CadenceDispatchModel {
    pub command_name: Seq<char>,
    pub attrs: Seq<(Seq<char>, Seq<char>)>,
}

impl View for CadenceDispatch {
    type V = CadenceDispatchModel;

    open spec fn view(&self) -> CadenceDispatchModel {
        CadenceDispatchModel { command_name: self.command_name@, attrs: seq_view(self.attrs@) }
    }
}

#[derive(Debug, Clone)]
pub struct Cadence {
    pub name: String,
    pub interval: String,
    pub dispatches: Vec<CadenceDispatch>,
}

pub struct CadenceModel {
    pub name: Seq<char>,
    pub interval: Seq<char>,
    pub dispatches: Seq<CadenceDispatchModel>,
}

impl View for Cadence {
    type V = CadenceModel;

    open spec fn view(&self) -> CadenceModel {
        CadenceModel {
            name: self.name@,
            interval: self.interval@,
            dispatches: seq_view(self.dispatches@),
        }
    }
}


// ---------------------------------------------------------------------
// Block walks
// ---------------------------------------------------------------------

/// One step of a block walk: go on from a line at a depth with the model
/// so far, stop with the model and the lines consumed, or fail.
pub enum Step<T> {
    Next(usize, usize, T),
    Done(T, usize),
    Fail,
}

pub enum StepModel<V> {
    Next(int, int, V),
    Done(V, int),
    Fail,
}

impl<T: View> View for Step<T> {
    type V = StepModel<T::V>;

    open spec fn view(&self) -> StepModel<T::V> {
        match self {
            Step::Next(i, d, x) => StepModel::Next(*i as int, *d as int, x@),
            Step::Done(x, n) => StepModel::Done(x@, *n as int),
            Step::Fail => StepModel::Fail,
        }
    }
}


// ---------------------------------------------------------------------
// Views, sections, aggregates, domains
// ---------------------------------------------------------------------

/// A named projection of an aggregate's fields (`view "name" do ... end`).
#[derive(Debug, Clone)]
pub struct AggregateView {
    pub name: String,
    pub show_all: bool,
    pub fields: Vec<String>,
}

pub struct AggregateViewModel {
    pub name: Seq<char>,
    pub show_all: bool,
    pub fields: Seq<Seq<char>>,
}

impl View for AggregateView {
    type V = AggregateViewModel;

    open spec fn view(&self) -> AggregateViewModel {
        AggregateViewModel { name: self.name@, show_all: self.show_all, fields: seq_view(self.fields@) }
    }
}

/// One `row "label", :field` of a capability section.
#[derive(Debug, Clone)]
pub struct SectionRow {
    pub label: String,
    pub field: String,
}

pub struct SectionRowModel {
    pub label: Seq<char>,
    pub field: Seq<char>,
}

impl View for SectionRow {
    type V = SectionRowModel;

    open spec fn view(&self) -> SectionRowModel {
        SectionRowModel { label: self.label@, field: self.field@ }
    }
}

/// A titled group of rows (`section "Title" do ... end`).
#[derive(Debug, Clone)]
pub struct Section {
    pub title: String,
    pub rows: Vec<SectionRow>,
}

pub struct SectionModel {
    pub title: Seq<char>,
    pub rows: Seq<SectionRowModel>,
}

impl View for Section {
    type V = SectionModel;

    open spec fn view(&self) -> SectionModel {
        SectionModel { title: self.title@, rows: seq_view(self.rows@) }
    }
}

/// An aggregate root and everything declared in its block.
#[derive(Debug, Clone)]
pub struct Aggregate {
    pub name: String,
    pub description: Option<String>,
    pub context: Option<String>,
    pub category: Option<String>,
    pub attributes: Vec<Attribute>,
    pub commands: Vec<Command>,
    pub queries: Vec<Query>,
    pub value_objects: Vec<ValueObject>,
    pub entities: Vec<Entity>,
    pub references: Vec<Reference>,
    pub lifecycle: Option<Lifecycle>,
    pub identified_by: Option<String>,
    pub invariants: Vec<Invariant>,
    pub views: Vec<AggregateView>,
}

pub struct AggregateModel {
    pub name: Seq<char>,
    pub description: Option<Seq<char>>,
    pub context: Option<Seq<char>>,
    pub category: Option<Seq<char>>,
    pub attributes: Seq<AttributeModel>,
    pub commands: Seq<CommandModel>,
    pub queries: Seq<QueryModel>,
    pub value_objects: Seq<ValueObjectModel>,
    pub entities: Seq<EntityModel>,
    pub references: Seq<ReferenceModel>,
    pub lifecycle: Option<LifecycleModel>,
    pub identified_by: Option<Seq<char>>,
    pub invariants: Seq<InvariantModel>,
    pub views: Seq<AggregateViewModel>,
}

impl View for Aggregate {
    type V = AggregateModel;

    open spec fn view(&self) -> AggregateModel {
        AggregateModel {
            name: self.name@,
            description: opt_view(self.description),
            context: opt_view(self.context),
            category: opt_view(self.category),
            attributes: seq_view(self.attributes@),
            commands: seq_view(self.commands@),
            queries: seq_view(self.queries@),
            value_objects: seq_view(self.value_objects@),
            entities: seq_view(self.entities@),
            references: seq_view(self.references@),
            lifecycle: opt_view(self.lifecycle),
            identified_by: opt_view(self.identified_by),
            invariants: seq_view(self.invariants@),
            views: seq_view(self.views@),
        }
    }
}

/// The block parsers a grammar can route a keyword to.
#[derive(Debug, Clone, Copy, PartialEq, Eq, Structural)]
pub enum BlockParser {
    Aggregate,
    Section,
    Policy,
    ProcessManager,
    Cadence,
    Fixture,
}

/// The parser registered under a name.
pub open spec fn parser_named(name: Seq<char>) -> Option<BlockParser> {
    if name == "aggregate"@ {
        Some(BlockParser::Aggregate)
    } else if name == "section"@ {
        Some(BlockParser::Section)
    } else if name == "policy"@ {
        Some(BlockParser::Policy)
    } else if name == "process_manager"@ {
        Some(BlockParser::ProcessManager)
    } else if name == "cadence"@ {
        Some(BlockParser::Cadence)
    } else if name == "fixture"@ {
        Some(BlockParser::Fixture)
    } else {
        None
    }
}

/// One `block "<keyword>", parser: :<name>` routing entry.
#[derive(Debug, Clone)]
pub struct BlockGrammarEntry {
    pub keyword: String,
    pub parser: BlockParser,
}

pub struct BlockGrammarEntryModel {
    pub keyword: Seq<char>,
    pub parser: BlockParser,
}

impl View for BlockGrammarEntry {
    type V = BlockGrammarEntryModel;

    open spec fn view(&self) -> BlockGrammarEntryModel {
        BlockGrammarEntryModel { keyword: self.keyword@, parser: self.parser }
    }
}

/// A keyword-to-parser routing table.
#[derive(Debug, Clone)]
pub struct BlockGrammar {
    pub name: String,
    pub blocks: Vec<BlockGrammarEntry>,
}

pub struct BlockGrammarModel {
    pub name: Seq<char>,
    pub blocks: Seq<BlockGrammarEntryModel>,
}

impl View for BlockGrammar {
    type V = BlockGrammarModel;

    open spec fn view(&self) -> BlockGrammarModel {
        BlockGrammarModel { name: self.name@, blocks: seq_view(self.blocks@) }
    }
}

/// The keywords every bluebook understands, in the order they are tried.
pub open spec fn canonical_keywords() -> Seq<BlockGrammarEntryModel> {
    seq![
        BlockGrammarEntryModel { keyword: "aggregate"@, parser: BlockParser::Aggregate },
        BlockGrammarEntryModel { keyword: "section"@, parser: BlockParser::Section },
        BlockGrammarEntryModel { keyword: "policy"@, parser: BlockParser::Policy },
        BlockGrammarEntryModel { keyword: "process_manager"@, parser: BlockParser::ProcessManager },
        BlockGrammarEntryModel { keyword: "cadence"@, parser: BlockParser::Cadence },
        BlockGrammarEntryModel { keyword: "fixture"@, parser: BlockParser::Fixture },
    ]
}

impl BlockParser {
    /// The parser registered under `name`, if any.
    pub fn from_name(name: &str) -> (r: Option<BlockParser>)
        ensures
            r == parser_named(name@),
    {
        let n = crate::text::chars_of(name);
        if crate::text::eq_str(&n, "aggregate") {
            Some(BlockParser::Aggregate)
        } else if crate::text::eq_str(&n, "section") {
            Some(BlockParser::Section)
        } else if crate::text::eq_str(&n, "policy") {
            Some(BlockParser::Policy)
        } else if crate::text::eq_str(&n, "process_manager") {
            Some(BlockParser::ProcessManager)
        } else if crate::text::eq_str(&n, "cadence") {
            Some(BlockParser::Cadence)
        } else if crate::text::eq_str(&n, "fixture") {
            Some(BlockParser::Fixture)
        } else {
            None
        }
    }
}

impl BlockGrammar {
    /// The canonical bluebook grammar.
    pub fn canonical_bluebook() -> (g: BlockGrammar)
        ensures
            g@.name == "bluebook"@,
            g@.blocks == canonical_keywords(),
    {
        let mut blocks: Vec<BlockGrammarEntry> = Vec::new();
        blocks.push(BlockGrammarEntry { keyword: String::from_str("aggregate"), parser: BlockParser::Aggregate });
        blocks.push(BlockGrammarEntry { keyword: String::from_str("section"), parser: BlockParser::Section });
        blocks.push(BlockGrammarEntry { keyword: String::from_str("policy"), parser: BlockParser::Policy });
        blocks.push(
            BlockGrammarEntry { keyword: String::from_str("process_manager"), parser: BlockParser::ProcessManager },
        );
        blocks.push(BlockGrammarEntry { keyword: String::from_str("cadence"), parser: BlockParser::Cadence });
        blocks.push(BlockGrammarEntry { keyword: String::from_str("fixture"), parser: BlockParser::Fixture });
        let g = BlockGrammar { name: String::from_str("bluebook"), blocks };
        assert(g@.blocks =~= canonical_keywords());
        g
    }
}

/// A parsed bluebook.
#[derive(Debug, Clone)]
pub struct Domain {
    pub name: String,
    pub category: Option<String>,
    pub vision: Option<String>,
    pub aggregates: Vec<Aggregate>,
    pub policies: Vec<Policy>,
    pub fixtures: Vec<Fixture>,
    pub entrypoint: Option<String>,
    pub sections: Vec<Section>,
    pub process_managers: Vec<ProcessManager>,
    pub cadences: Vec<Cadence>,
    pub block_grammars: Vec<BlockGrammar>,
}

pub struct DomainModel {
    pub name: Seq<char>,
    pub category: Option<Seq<char>>,
    pub vision: Option<Seq<char>>,
    pub aggregates: Seq<AggregateModel>,
    pub policies: Seq<PolicyModel>,
    pub fixtures: Seq<FixtureModel>,
    pub entrypoint: Option<Seq<char>>,
    pub sections: Seq<SectionModel>,
    pub process_managers: Seq<ProcessManagerModel>,
    pub cadences: Seq<CadenceModel>,
    pub block_grammars: Seq<BlockGrammarModel>,
}

impl View for Domain {
    type V = DomainModel;

    open spec fn view(&self) -> DomainModel {
        DomainModel {
            name: self.name@,
            category: opt_view(self.category),
            vision: opt_view(self.vision),
            aggregates: seq_view(self.aggregates@),
            policies: seq_view(self.policies@),
            fixtures: seq_view(self.fixtures@),
            entrypoint: opt_view(self.entrypoint),
            sections: seq_view(self.sections@),
            process_managers: seq_view(self.process_managers@),
            cadences: seq_view(self.cadences@),
            block_grammars: seq_view(self.block_grammars@),
        }
    }
}

} // verus!
