//! The values that programs compute with.

use vstd::prelude::*;
use vstd::string::*;

use crate::error::ErrorModel;
use crate::error::ExecutionError;
use crate::location::Location;
use crate::table::Key;
use crate::text::decimal;
use crate::text::quoted;

verus! {

/// A node of the syntax tree: the number that tells it from the other nodes, its kind, and where
/// it starts.
#[derive(Debug, PartialEq, Eq)]
pub struct SyntaxNodeRef {
    pub index: usize,
    pub kind: String,
    pub position: Location,
}

/// The model of a `SyntaxNodeRef`.
#[verifier::ext_equal]
pub struct SyntaxNodeModel {
    pub index: usize,
    pub kind: Seq<char>,
    pub position: Location,
}

impl View for SyntaxNodeRef {
    type V = SyntaxNodeModel;

    open spec fn view(&self) -> SyntaxNodeModel {
        SyntaxNodeModel { index: self.index, kind: self.kind@, position: self.position }
    }
}

impl Clone for SyntaxNodeRef {
    fn clone(&self) -> (r: SyntaxNodeRef)
        ensures
            r@ == self@,
    {
        SyntaxNodeRef { index: self.index, kind: self.kind.clone(), position: self.position }
    }
}

impl Key for SyntaxNodeRef {
    fn same(&self, other: &Self) -> (r: bool) {
        let r = self.index == other.index && self.kind == other.kind && self.position.row
            == other.position.row && self.position.column == other.position.column;
        r
    }
}

impl SyntaxNodeModel {
    /// A syntax node is shown by its kind and its start, counted from one.
    pub open spec fn shown(self) -> Seq<char> {
        "[syntax node "@ + self.kind + " "@ + self.position.shown() + "]"@
    }
}

impl SyntaxNodeRef {
    pub fn text(&self) -> (r: String)
        ensures
            r@ == self@.shown(),
    {
        let mut r = "[syntax node ".to_owned();
        r.append(self.kind.as_str());
        r.append(" ");
        r.append(self.position.text().as_str());
        r.append("]");
        r
    }
}

/// A node of the graph, by its number.
#[derive(Clone, Copy, Debug, PartialEq, Eq, Structural)]
pub struct GraphNodeRef {
    pub index: usize,
}

impl GraphNodeRef {
    /// A graph node is shown by its number.
    pub open spec fn shown(self) -> Seq<char> {
        "[graph node "@ + crate::text::decimal_text(self.index as nat) + "]"@
    }

    pub fn text(&self) -> (r: String)
        ensures
            r@ == self.shown(),
    {
        let mut r = "[graph node ".to_owned();
        r.append(decimal(self.index as u128).as_str());
        r.append("]");
        r
    }
}

/// The value of an expression.
#[derive(Debug, PartialEq, Eq)]
pub enum Value {
    Null,
    Boolean(bool),
    Integer(u32),
    String(String),
    List(Vec<Value>),
    ValueSet(ValueSet),
    SyntaxNode(SyntaxNodeRef),
    GraphNode(GraphNodeRef),
}

/// A set of values, listed in ascending order.
#[derive(Debug, PartialEq, Eq)]
pub struct ValueSet {
    pub elements: Vec<Value>,
}

/// The model of a `Value`.
#[verifier::ext_equal]
pub enum ValueModel {
    Null,
    Boolean(bool),
    Integer(u32),
    String(Seq<char>),
    List(Seq<ValueModel>),
    ValueSet(Seq<ValueModel>),
    SyntaxNode(SyntaxNodeModel),
    GraphNode(GraphNodeRef),
}

impl View for Value {
    type V = ValueModel;

    open spec fn view(&self) -> ValueModel
        decreases self,
    {
        match self {
            Value::Null => ValueModel::Null,
            Value::Boolean(b) => ValueModel::Boolean(*b),
            Value::Integer(n) => ValueModel::Integer(*n),
            Value::String(s) => ValueModel::String(s@),
            Value::List(values) => ValueModel::List(
                Seq::new(
                    values@.len(),
                    |i: int|
                        if 0 <= i < values@.len() {
                            values@[i]@
                        } else {
                            arbitrary()
                        },
                ),
            ),
            Value::ValueSet(set) => ValueModel::ValueSet(
                Seq::new(
                    set.elements@.len(),
                    |i: int|
                        if 0 <= i < set.elements@.len() {
                            set.elements@[i]@
                        } else {
                            arbitrary()
                        },
                ),
            ),
            Value::SyntaxNode(node) => ValueModel::SyntaxNode(node@),
            Value::GraphNode(node) => ValueModel::GraphNode(*node),
        }
    }
}

/// The models of a sequence of values.
pub open spec fn values_model(values: Seq<Value>) -> Seq<ValueModel> {
    Seq::new(values.len(), |i: int| values[i]@)
}

impl Value {
    /// A list is modelled by the models of its elements.
    pub broadcast proof fn lemma_list_view(values: Vec<Value>)
        ensures
            #[trigger] Value::List(values)@ == ValueModel::List(values_model(values@)),
    {
        reveal_with_fuel(<Value as View>::view, 2);
        assert(Value::List(values)@->List_0 =~= values_model(values@));
    }

    /// A set is modelled by the models of its elements.
    pub broadcast proof fn lemma_set_view(set: ValueSet)
        ensures
            #[trigger] Value::ValueSet(set)@ == ValueModel::ValueSet(values_model(set.elements@)),
    {
        reveal_with_fuel(<Value as View>::view, 2);
        assert(Value::ValueSet(set)@->ValueSet_0 =~= values_model(set.elements@));
    }
}

/// A copy of `values`.
pub fn clone_values(values: &Vec<Value>) -> (r: Vec<Value>)
    ensures
        values_model(r@) == values_model(values@),
    decreases values@,
{
    let mut r: Vec<Value> = Vec::new();
    let mut i: usize = 0;
    while i < values.len()
        invariant
            i <= values.len(),
            r.len() == i,
            forall|j: int| 0 <= j < i ==> (#[trigger] r@[j])@ == values@[j]@,
        decreases values.len() - i,
    {
        r.push(values[i].clone());
        i += 1;
    }
    assert(values_model(r@) =~= values_model(values@));
    r
}

impl Clone for Value {
    fn clone(&self) -> (r: Value)
        ensures
            r@ == self@,
        decreases self,
    {
        broadcast use {Value::lemma_list_view, Value::lemma_set_view};

        match self {
            Value::Null => Value::Null,
            Value::Boolean(b) => Value::Boolean(*b),
            Value::Integer(n) => Value::Integer(*n),
            Value::String(s) => Value::String(s.clone()),
            Value::List(values) => Value::List(clone_values(values)),
            Value::ValueSet(set) => Value::ValueSet(
                ValueSet { elements: clone_values(&set.elements) },
            ),
            Value::SyntaxNode(node) => Value::SyntaxNode(node.clone()),
            Value::GraphNode(node) => Value::GraphNode(*node),
        }
    }
}

/// How one value stands to another in the order of values.
#[derive(Clone, Copy, Debug, PartialEq, Eq, Structural)]
pub enum Order {
    Less,
    Equal,
    Greater,
}

/// The order of numbers.
pub open spec fn number_order(a: int, b: int) -> Order {
    if a < b {
        Order::Less
    } else if a == b {
        Order::Equal
    } else {
        Order::Greater
    }
}

/// The lexicographic order of the bytes from position `i` on.
pub open spec fn bytes_order(a: Seq<u8>, b: Seq<u8>, i: int) -> Order
    decreases a.len() - i,
{
    if i < 0 || i >= a.len() || i >= b.len() {
        number_order(a.len() as int, b.len() as int)
    } else if a[i] == b[i] {
        bytes_order(a, b, i + 1)
    } else {
        number_order(a[i] as int, b[i] as int)
    }
}

/// The order of strings: that of their UTF-8 bytes.
pub open spec fn string_order(a: Seq<char>, b: Seq<char>) -> Order {
    bytes_order(vstd::utf8::encode_utf8(a), vstd::utf8::encode_utf8(b), 0)
}

/// `first`, unless it leaves the decision to `second`.
pub open spec fn first_order(first: Order, second: Order) -> Order {
    if first is Equal {
        second
    } else {
        first
    }
}

impl SyntaxNodeModel {
    /// The order of syntax nodes: by number, then kind, then position.
    pub open spec fn order(self, other: SyntaxNodeModel) -> Order {
        first_order(
            number_order(self.index as int, other.index as int),
            first_order(
                string_order(self.kind, other.kind),
                first_order(
                    number_order(self.position.row as int, other.position.row as int),
                    number_order(self.position.column as int, other.position.column as int),
                ),
            ),
        )
    }
}

impl ValueModel {
    /// Values of different kinds are ordered by kind.
    pub open spec fn rank(self) -> int {
        match self {
            ValueModel::Null => 0,
            ValueModel::Boolean(_) => 1,
            ValueModel::Integer(_) => 2,
            ValueModel::String(_) => 3,
            ValueModel::List(_) => 4,
            ValueModel::ValueSet(_) => 5,
            ValueModel::SyntaxNode(_) => 6,
            ValueModel::GraphNode(_) => 7,
        }
    }

    /// The order of values.
    pub open spec fn order(self, other: ValueModel) -> Order
        decreases self, 0int,
    {
        match (self, other) {
            (ValueModel::Boolean(a), ValueModel::Boolean(b)) => number_order(
                if a {
                    1int
                } else {
                    0
                },
                if b {
                    1int
                } else {
                    0
                },
            ),
            (ValueModel::Integer(a), ValueModel::Integer(b)) => number_order(a as int, b as int),
            (ValueModel::String(a), ValueModel::String(b)) => string_order(a, b),
            (ValueModel::List(a), ValueModel::List(b)) => ValueModel::list_order(a, b, 0),
            (ValueModel::ValueSet(a), ValueModel::ValueSet(b)) => ValueModel::list_order(a, b, 0),
            (ValueModel::SyntaxNode(a), ValueModel::SyntaxNode(b)) => a.order(b),
            (ValueModel::GraphNode(a), ValueModel::GraphNode(b)) => number_order(
                a.index as int,
                b.index as int,
            ),
            _ => number_order(self.rank(), other.rank()),
        }
    }

    /// The lexicographic order of the values from position `i` on.
    pub open spec fn list_order(a: Seq<ValueModel>, b: Seq<ValueModel>, i: int) -> Order
        decreases a, a.len() - i,
    {
        if i < 0 || i >= a.len() || i >= b.len() {
            number_order(a.len() as int, b.len() as int)
        } else {
            match a[i].order(b[i]) {
                Order::Equal => ValueModel::list_order(a, b, i + 1),
                other => other,
            }
        }
    }

    /// The ascending list `elements`, with `value` added from position `i` on if it is not there.
    pub open spec fn added_from(elements: Seq<ValueModel>, i: int, value: ValueModel) -> Seq<
        ValueModel,
    >
        decreases elements.len() - i,
    {
        if i < 0 || i >= elements.len() {
            elements.push(value)
        } else {
            match elements[i].order(value) {
                Order::Less => ValueModel::added_from(elements, i + 1, value),
                Order::Equal => elements,
                Order::Greater => elements.insert(i, value),
            }
        }
    }

    /// The set of the first `n` of the `values`, in ascending order.
    pub open spec fn set_of(values: Seq<ValueModel>, n: int) -> Seq<ValueModel>
        decreases n,
    {
        if n <= 0 {
            Seq::empty()
        } else {
            ValueModel::added_from(ValueModel::set_of(values, n - 1), 0, values[n - 1])
        }
    }
}

fn order_of_numbers(a: usize, b: usize) -> (r: Order)
    ensures
        r == number_order(a as int, b as int),
{
    if a < b {
        Order::Less
    } else if a == b {
        Order::Equal
    } else {
        Order::Greater
    }
}

fn order_of_strings(a: &str, b: &str) -> (r: Order)
    ensures
        r == string_order(a@, b@),
{
    let x = a.as_bytes();
    let y = b.as_bytes();
    let mut i: usize = 0;
    while i < x.len() && i < y.len()
        invariant
            i <= x.len(),
            i <= y.len(),
            x@ == vstd::utf8::encode_utf8(a@),
            y@ == vstd::utf8::encode_utf8(b@),
            bytes_order(x@, y@, 0) == bytes_order(x@, y@, i as int),
        decreases x.len() - i,
    {
        if x[i] < y[i] {
            return Order::Less;
        }
        if x[i] > y[i] {
            return Order::Greater;
        }
        i += 1;
    }
    order_of_numbers(x.len(), y.len())
}

impl SyntaxNodeRef {
    /// How this node stands to `other` in the order of values.
    pub fn order(&self, other: &SyntaxNodeRef) -> (r: Order)
        ensures
            r == self@.order(other@),
    {
        let first = order_of_numbers(self.index, other.index);
        if !matches!(first, Order::Equal) {
            return first;
        }
        let second = order_of_strings(self.kind.as_str(), other.kind.as_str());
        if !matches!(second, Order::Equal) {
            return second;
        }
        let third = order_of_numbers(self.position.row, other.position.row);
        if !matches!(third, Order::Equal) {
            return third;
        }
        order_of_numbers(self.position.column, other.position.column)
    }
}

fn order_of_lists(a: &Vec<Value>, b: &Vec<Value>) -> (r: Order)
    ensures
        r == ValueModel::list_order(values_model(a@), values_model(b@), 0),
    decreases a@,
{
    let ghost x = values_model(a@);
    let ghost y = values_model(b@);
    let mut i: usize = 0;
    while i < a.len() && i < b.len()
        invariant
            i <= a.len(),
            i <= b.len(),
            x == values_model(a@),
            y == values_model(b@),
            ValueModel::list_order(x, y, 0) == ValueModel::list_order(x, y, i as int),
        decreases a.len() - i,
    {
        assert(x[i as int] == a@[i as int]@ && y[i as int] == b@[i as int]@);
        let order = a[i].order(&b[i]);
        if !matches!(order, Order::Equal) {
            return order;
        }
        i += 1;
    }
    order_of_numbers(a.len(), b.len())
}

impl Value {
    fn rank(&self) -> (r: usize)
        ensures
            r == self@.rank(),
    {
        match self {
            Value::Null => 0,
            Value::Boolean(_) => 1,
            Value::Integer(_) => 2,
            Value::String(_) => 3,
            Value::List(_) => 4,
            Value::ValueSet(_) => 5,
            Value::SyntaxNode(_) => 6,
            Value::GraphNode(_) => 7,
        }
    }

    /// How this value stands to `other` in the order of values.
    pub fn order(&self, other: &Value) -> (r: Order)
        ensures
            r == self@.order(other@),
        decreases self,
    {
        broadcast use {Value::lemma_list_view, Value::lemma_set_view};

        match (self, other) {
            (Value::Boolean(a), Value::Boolean(b)) => order_of_numbers(
                if *a {
                    1
                } else {
                    0
                },
                if *b {
                    1
                } else {
                    0
                },
            ),
            (Value::Integer(a), Value::Integer(b)) => order_of_numbers(*a as usize, *b as usize),
            (Value::String(a), Value::String(b)) => order_of_strings(a.as_str(), b.as_str()),
            (Value::List(a), Value::List(b)) => order_of_lists(a, b),
            (Value::ValueSet(a), Value::ValueSet(b)) => order_of_lists(&a.elements, &b.elements),
            (Value::SyntaxNode(a), Value::SyntaxNode(b)) => a.order(b),
            (Value::GraphNode(a), Value::GraphNode(b)) => order_of_numbers(a.index, b.index),
            _ => order_of_numbers(self.rank(), other.rank()),
        }
    }
}

impl ValueSet {
    /// The set without elements.
    pub fn new() -> (r: ValueSet)
        ensures
            values_model(r.elements@) == Seq::<ValueModel>::empty(),
    {
        let r = ValueSet { elements: Vec::new() };
        assert(values_model(r.elements@) =~= Seq::<ValueModel>::empty());
        r
    }

    /// Adds `value` if it is not there.
    pub fn add(&mut self, value: Value)
        ensures
            values_model(final(self).elements@) == ValueModel::added_from(
                values_model(old(self).elements@),
                0,
                value@,
            ),
    {
        let ghost before = values_model(self.elements@);
        let ghost model = value@;
        let mut i: usize = 0;
        while i < self.elements.len()
            invariant
                i <= self.elements.len(),
                values_model(self.elements@) == before,
                before == values_model(old(self).elements@),
                value@ == model,
                ValueModel::added_from(before, 0, model) == ValueModel::added_from(
                    before,
                    i as int,
                    model,
                ),
            decreases self.elements.len() - i,
        {
            assert(before[i as int] == self.elements@[i as int]@);
            match self.elements[i].order(&value) {
                Order::Less => {
                    i += 1;
                },
                Order::Equal => {
                    return;
                },
                Order::Greater => {
                    self.elements.insert(i, value);
                    assert(values_model(self.elements@) =~= before.insert(i as int, model));
                    return;
                },
            }
        }
        self.elements.push(value);
        assert(values_model(self.elements@) =~= before.push(model));
    }
}

impl ValueSet {
    /// The set of the `values`.
    pub fn of(values: Vec<Value>) -> (r: ValueSet)
        ensures
            values_model(r.elements@) == ValueModel::set_of(
                values_model(values@),
                values.len() as int,
            ),
    {
        let ghost models = values_model(values@);
        let mut r = ValueSet::new();
        let mut i: usize = 0;
        while i < values.len()
            invariant
                i <= values.len(),
                models == values_model(values@),
                values_model(r.elements@) == ValueModel::set_of(models, i as int),
            decreases values.len() - i,
        {
            assert(models[i as int] == values@[i as int]@);
            r.add(values[i].clone());
            i += 1;
        }
        r
    }
}

impl ValueModel {
    /// A list is shown in square brackets, a set in braces, a string in double quotes.
    pub open spec fn shown(self) -> Seq<char>
        decreases self, 0int,
    {
        match self {
            ValueModel::Null => "#null"@,
            ValueModel::Boolean(b) => if b {
                "#true"@
            } else {
                "#false"@
            },
            ValueModel::Integer(n) => crate::text::decimal_text(n as nat),
            ValueModel::String(s) => crate::text::quoted_text(s),
            ValueModel::List(values) => ValueModel::list_shown(
                "["@,
                values,
                values.len() as int,
            ) + "]"@,
            ValueModel::ValueSet(values) => ValueModel::list_shown(
                "{"@,
                values,
                values.len() as int,
            ) + "}"@,
            ValueModel::SyntaxNode(node) => node.shown(),
            ValueModel::GraphNode(node) => node.shown(),
        }
    }

    /// `start`, and after it the first `n` of the `values`, separated by commas.
    pub open spec fn list_shown(start: Seq<char>, values: Seq<ValueModel>, n: int) -> Seq<char>
        decreases values, n,
    {
        if n <= 0 || n > values.len() {
            start
        } else if n == 1 {
            start + values[0].shown()
        } else {
            ValueModel::list_shown(start, values, n - 1) + ", "@ + values[n - 1].shown()
        }
    }
}

fn list_text(start: &str, values: &Vec<Value>) -> (r: String)
    ensures
        r@ == ValueModel::list_shown(
            start@,
            values_model(values@),
            values.len() as int,
        ),
    decreases values@,
{
    let mut r = start.to_owned();
    let mut i: usize = 0;
    let ghost models = values_model(values@);
    while i < values.len()
        invariant
            i <= values.len(),
            models == values_model(values@),
            r@ == ValueModel::list_shown(start@, models, i as int),
        decreases values.len() - i,
    {
        if i > 0 {
            r.append(", ");
        }
        r.append(values[i].text().as_str());
        assert(models[i as int] == values@[i as int]@);
        i += 1;
    }
    r
}

impl Value {
    pub fn text(&self) -> (r: String)
        ensures
            r@ == self@.shown(),
        decreases self,
    {
        broadcast use {Value::lemma_list_view, Value::lemma_set_view};

        match self {
            Value::Null => "#null".to_owned(),
            Value::Boolean(b) => if *b {
                "#true".to_owned()
            } else {
                "#false".to_owned()
            },
            Value::Integer(n) => decimal(*n as u128),
            Value::String(s) => quoted(s.as_str()),
            Value::List(values) => {
                let mut r = list_text("[", values);
                r.append("]");
                r
            },
            Value::ValueSet(set) => {
                let mut r = list_text("{", &set.elements);
                r.append("}");
                r
            },
            Value::SyntaxNode(node) => node.text(),
            Value::GraphNode(node) => node.text(),
        }
    }

    fn got(&self) -> (r: String)
        ensures
            r@ == self@.got(),
    {
        let mut r = "got ".to_owned();
        r.append(self.text().as_str());
        r
    }

    pub fn is_null(&self) -> (r: bool)
        ensures
            r == (self@ is Null),
    {
        matches!(self, Value::Null)
    }

    /// The truth value, if this is one.
    pub fn into_boolean(self) -> (r: Result<bool, ExecutionError>)
        ensures
            (match r {
                Ok(b) => Ok(b),
                Err(e) => Err(e@),
            }) == self@.into_boolean(),
    {
        match self {
            Value::Boolean(b) => Ok(b),
            other => Err(ExecutionError::ExpectedBoolean(other.got())),
        }
    }

    /// The string, if this is one.
    pub fn into_string(self) -> (r: Result<String, ExecutionError>)
        ensures
            crate::error::result_model(r) == self@.into_string(),
    {
        match self {
            Value::String(s) => Ok(s),
            other => Err(ExecutionError::ExpectedString(other.got())),
        }
    }

    /// The elements, if this is a list.
    pub fn into_list(self) -> (r: Result<Vec<Value>, ExecutionError>)
        ensures
            (match r {
                Ok(values) => Ok(values_model(values@)),
                Err(e) => Err(e@),
            }) == self@.into_list(),
    {
        broadcast use Value::lemma_list_view;

        match self {
            Value::List(values) => Ok(values),
            other => Err(ExecutionError::ExpectedList(other.got())),
        }
    }

    /// The syntax node, if this is one.
    pub fn into_syntax_node(self) -> (r: Result<SyntaxNodeRef, ExecutionError>)
        ensures
            crate::error::result_model(r) == self@.into_syntax_node(),
    {
        match self {
            Value::SyntaxNode(node) => Ok(node),
            other => Err(ExecutionError::ExpectedSyntaxNode(other.got())),
        }
    }

    /// The graph node, if this is one.
    pub fn into_graph_node(self) -> (r: Result<GraphNodeRef, ExecutionError>)
        ensures
            (match r {
                Ok(node) => Ok(node),
                Err(e) => Err(e@),
            }) == self@.into_graph_node(),
    {
        match self {
            Value::GraphNode(node) => Ok(node),
            other => Err(ExecutionError::ExpectedGraphNode(other.got())),
        }
    }
}

impl ValueModel {
    /// The part of an error that tells which value was found.
    pub open spec fn got(self) -> Seq<char> {
        "got "@ + self.shown()
    }

    pub open spec fn into_boolean(self) -> Result<bool, ErrorModel> {
        match self {
            ValueModel::Boolean(b) => Ok(b),
            _ => Err(ErrorModel::ExpectedBoolean(self.got())),
        }
    }

    pub open spec fn into_string(self) -> Result<Seq<char>, ErrorModel> {
        match self {
            ValueModel::String(s) => Ok(s),
            _ => Err(ErrorModel::ExpectedString(self.got())),
        }
    }

    pub open spec fn into_list(self) -> Result<Seq<ValueModel>, ErrorModel> {
        match self {
            ValueModel::List(values) => Ok(values),
            _ => Err(ErrorModel::ExpectedList(self.got())),
        }
    }

    pub open spec fn into_syntax_node(self) -> Result<SyntaxNodeModel, ErrorModel> {
        match self {
            ValueModel::SyntaxNode(node) => Ok(node),
            _ => Err(ErrorModel::ExpectedSyntaxNode(self.got())),
        }
    }

    pub open spec fn into_graph_node(self) -> Result<GraphNodeRef, ErrorModel> {
        match self {
            ValueModel::GraphNode(node) => Ok(node),
            _ => Err(ErrorModel::ExpectedGraphNode(self.got())),
        }
    }
}

} // verus!
