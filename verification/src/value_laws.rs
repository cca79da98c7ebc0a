//! Laws of the order of values, and of sets.

use vstd::prelude::*;

use crate::values::GraphNodeRef;
use crate::values::Order;
use crate::values::SyntaxNodeModel;
use crate::values::ValueModel;

verus! {

impl Order {
    /// How the second of two things stands to the first, if this is how the first stands to the
    /// second.
    pub open spec fn turned(self) -> Order {
        match self {
            Order::Less => Order::Greater,
            Order::Equal => Order::Equal,
            Order::Greater => Order::Less,
        }
    }
}

proof fn lemma_bytes_order(a: Seq<u8>, b: Seq<u8>, i: int)
    requires
        0 <= i <= a.len(),
        i <= b.len(),
    ensures
        crate::values::bytes_order(b, a, i) == crate::values::bytes_order(a, b, i).turned(),
        crate::values::bytes_order(a, b, i) is Equal <==> a.len() == b.len() && forall|k: int|
            i <= k < a.len() ==> #[trigger] a[k] == b[k],
    decreases a.len() - i,
{
    if i < a.len() && i < b.len() && a[i] == b[i] {
        lemma_bytes_order(a, b, i + 1);
    }
}

proof fn lemma_bytes_transitive(a: Seq<u8>, b: Seq<u8>, c: Seq<u8>, i: int)
    requires
        0 <= i <= a.len(),
        i <= b.len(),
        i <= c.len(),
        crate::values::bytes_order(a, b, i) is Less,
        crate::values::bytes_order(b, c, i) is Less,
    ensures
        crate::values::bytes_order(a, c, i) is Less,
    decreases a.len() - i,
{
    if i < a.len() && i < b.len() && i < c.len() && a[i] == b[i] && b[i] == c[i] {
        lemma_bytes_transitive(a, b, c, i + 1);
    }
}

proof fn lemma_string_order(a: Seq<char>, b: Seq<char>)
    ensures
        crate::values::string_order(b, a) == crate::values::string_order(a, b).turned(),
        crate::values::string_order(a, b) is Equal <==> a == b,
{
    broadcast use vstd::utf8::encode_utf8_decode_utf8;

    let x = vstd::utf8::encode_utf8(a);
    let y = vstd::utf8::encode_utf8(b);
    lemma_bytes_order(x, y, 0);
    if crate::values::string_order(a, b) is Equal {
        assert(x =~= y);
        assert(vstd::utf8::decode_utf8(x) == a);
        assert(vstd::utf8::decode_utf8(y) == b);
    }
}

proof fn lemma_string_transitive(a: Seq<char>, b: Seq<char>, c: Seq<char>)
    requires
        crate::values::string_order(a, b) is Less,
        crate::values::string_order(b, c) is Less,
    ensures
        crate::values::string_order(a, c) is Less,
{
    lemma_bytes_transitive(
        vstd::utf8::encode_utf8(a),
        vstd::utf8::encode_utf8(b),
        vstd::utf8::encode_utf8(c),
        0,
    );
}

impl SyntaxNodeModel {
    proof fn lemma_order(self, other: SyntaxNodeModel)
        ensures
            other.order(self) == self.order(other).turned(),
            self.order(other) is Equal <==> self == other,
    {
        lemma_string_order(self.kind, other.kind);
    }

    proof fn lemma_transitive(self, middle: SyntaxNodeModel, other: SyntaxNodeModel)
        requires
            self.order(middle) is Less,
            middle.order(other) is Less,
        ensures
            self.order(other) is Less,
    {
        lemma_string_order(self.kind, middle.kind);
        lemma_string_order(middle.kind, other.kind);
        if crate::values::string_order(self.kind, middle.kind) is Less
            && crate::values::string_order(middle.kind, other.kind) is Less {
            lemma_string_transitive(self.kind, middle.kind, other.kind);
        }
    }
}

impl ValueModel {
    /// Of two values one comes before the other, or they are the same.
    pub proof fn lemma_order(self, other: ValueModel)
        ensures
            other.order(self) == self.order(other).turned(),
            self.order(other) is Equal <==> self == other,
        decreases self, 0int,
    {
        match (self, other) {
            (ValueModel::String(a), ValueModel::String(b)) => lemma_string_order(a, b),
            (ValueModel::List(a), ValueModel::List(b)) => {
                ValueModel::lemma_list_order(a, b, 0);
                if self.order(other) is Equal {
                    assert(a =~= b);
                }
            },
            (ValueModel::ValueSet(a), ValueModel::ValueSet(b)) => {
                ValueModel::lemma_list_order(a, b, 0);
                if self.order(other) is Equal {
                    assert(a =~= b);
                }
            },
            (ValueModel::SyntaxNode(a), ValueModel::SyntaxNode(b)) => a.lemma_order(b),
            _ => {},
        }
    }

    proof fn lemma_list_order(a: Seq<ValueModel>, b: Seq<ValueModel>, i: int)
        requires
            0 <= i <= a.len(),
            i <= b.len(),
        ensures
            ValueModel::list_order(b, a, i) == ValueModel::list_order(a, b, i).turned(),
            ValueModel::list_order(a, b, i) is Equal <==> a.len() == b.len() && forall|k: int|
                i <= k < a.len() ==> #[trigger] a[k] == b[k],
        decreases a, a.len() - i,
    {
        if i < a.len() && i < b.len() {
            a[i].lemma_order(b[i]);
            ValueModel::lemma_list_order(a, b, i + 1);
        }
    }

    /// What comes before something comes before everything that comes after that.
    pub proof fn lemma_order_transitive(self, middle: ValueModel, other: ValueModel)
        requires
            self.order(middle) is Less,
            middle.order(other) is Less,
        ensures
            self.order(other) is Less,
        decreases self, 0int,
    {
        match (self, middle, other) {
            (ValueModel::String(a), ValueModel::String(b), ValueModel::String(c)) => {
                lemma_string_transitive(a, b, c);
            },
            (ValueModel::List(a), ValueModel::List(b), ValueModel::List(c)) => {
                ValueModel::lemma_list_transitive(a, b, c, 0);
            },
            (ValueModel::ValueSet(a), ValueModel::ValueSet(b), ValueModel::ValueSet(c)) => {
                ValueModel::lemma_list_transitive(a, b, c, 0);
            },
            (ValueModel::SyntaxNode(a), ValueModel::SyntaxNode(b), ValueModel::SyntaxNode(c)) => {
                a.lemma_transitive(b, c);
            },
            _ => {},
        }
    }

    proof fn lemma_list_transitive(
        a: Seq<ValueModel>,
        b: Seq<ValueModel>,
        c: Seq<ValueModel>,
        i: int,
    )
        requires
            0 <= i <= a.len(),
            i <= b.len(),
            i <= c.len(),
            ValueModel::list_order(a, b, i) is Less,
            ValueModel::list_order(b, c, i) is Less,
        ensures
            ValueModel::list_order(a, c, i) is Less,
        decreases a, a.len() - i,
    {
        if i < a.len() && i < b.len() && i < c.len() {
            a[i].lemma_order(b[i]);
            b[i].lemma_order(c[i]);
            a[i].lemma_order(c[i]);
            if a[i].order(b[i]) is Less && b[i].order(c[i]) is Less {
                a[i].lemma_order_transitive(b[i], c[i]);
            } else if a[i] == b[i] && b[i] == c[i] {
                ValueModel::lemma_list_transitive(a, b, c, i + 1);
            }
        }
    }

    /// Whether this value comes before `other`.
    #[verifier::opaque]
    pub open spec fn before(self, other: ValueModel) -> bool {
        self.order(other) is Less
    }

    proof fn lemma_before(self, other: ValueModel)
        ensures
            self.before(other) == (self.order(other) is Less),
            other.before(self) == (self.order(other) is Greater),
            (self == other) == (self.order(other) is Equal),
    {
        reveal(ValueModel::before);
        self.lemma_order(other);
    }

    proof fn lemma_before_strict(self, other: ValueModel)
        ensures
            self.before(other) || self == other || other.before(self),
            !(self.before(other) && self == other),
            !(self.before(other) && other.before(self)),
    {
        self.lemma_before(other);
    }

    proof fn lemma_before_transitive(self, middle: ValueModel, other: ValueModel)
        requires
            self.before(middle),
            middle.before(other),
        ensures
            self.before(other),
    {
        reveal(ValueModel::before);
        self.lemma_order_transitive(middle, other);
    }

    /// Whether the values are listed in ascending order, each of them once.
    pub open spec fn ascending(values: Seq<ValueModel>) -> bool {
        forall|i: int, j: int|
            0 <= i < j < values.len() ==> (#[trigger] values[i]).before(#[trigger] values[j])
    }

    proof fn lemma_inserted(elements: Seq<ValueModel>, i: int, value: ValueModel)
        requires
            ValueModel::ascending(elements),
            0 <= i <= elements.len(),
            forall|k: int| 0 <= k < i ==> (#[trigger] elements[k]).before(value),
            i < elements.len() ==> value.before(elements[i]),
        ensures
            ValueModel::ascending(elements.insert(i, value)),
            forall|v: ValueModel| #[trigger]
                elements.insert(i, value).contains(v) <==> elements.contains(v) || v == value,
    {
        let added = elements.insert(i, value);
        assert forall|j: int, k: int| 0 <= j < k < added.len() implies (
        #[trigger] added[j]).before(#[trigger] added[k]) by {
            let y = if k < i {
                elements[k]
            } else if k == i {
                value
            } else {
                elements[k - 1]
            };
            assert(added[k] == y);
            if j < i {
                assert(added[j] == elements[j]);
            } else if j == i {
                assert(added[j] == value);
                if k - 1 > i {
                    value.lemma_before_transitive(elements[i], elements[k - 1]);
                }
            } else {
                assert(added[j] == elements[j - 1]);
            }
        }
        assert(added[i] == value);
        assert forall|v: ValueModel| elements.contains(v) implies #[trigger] added.contains(v) by {
            let k = elements.index_of(v);
            if k < i {
                assert(added[k] == v);
            } else {
                assert(added[k + 1] == v);
            }
        }
        assert forall|v: ValueModel| #[trigger] added.contains(v) implies elements.contains(v) || v
            == value by {
            let k = added.index_of(v);
            if k < i {
                assert(elements[k] == v);
            } else if k > i {
                assert(elements[k - 1] == v);
            }
        }
    }

    proof fn lemma_added_from(elements: Seq<ValueModel>, i: int, value: ValueModel)
        requires
            ValueModel::ascending(elements),
            0 <= i <= elements.len(),
            forall|k: int| 0 <= k < i ==> (#[trigger] elements[k]).before(value),
        ensures
            ValueModel::ascending(ValueModel::added_from(elements, i, value)),
            forall|v: ValueModel| #[trigger]
                ValueModel::added_from(elements, i, value).contains(v) <==> elements.contains(v) || v
                    == value,
        decreases elements.len() - i,
    {
        if i >= elements.len() {
            ValueModel::lemma_inserted(elements, i, value);
            assert(elements.push(value) =~= elements.insert(i, value));
        } else {
            elements[i].lemma_before(value);
            match elements[i].order(value) {
                Order::Less => {
                    ValueModel::lemma_added_from(elements, i + 1, value);
                },
                Order::Equal => {
                    assert(elements.contains(value));
                },
                Order::Greater => {
                    ValueModel::lemma_inserted(elements, i, value);
                },
            }
        }
    }

    /// The set of some values holds just these values, in ascending order and each once.
    pub proof fn lemma_set_of(values: Seq<ValueModel>, n: int)
        requires
            0 <= n <= values.len(),
        ensures
            ValueModel::ascending(ValueModel::set_of(values, n)),
            forall|v: ValueModel| #[trigger]
                ValueModel::set_of(values, n).contains(v) <==> values.take(n).contains(v),
        decreases n,
    {
        if n > 0 {
            ValueModel::lemma_set_of(values, n - 1);
            let before = ValueModel::set_of(values, n - 1);
            ValueModel::lemma_added_from(before, 0, values[n - 1]);
            assert forall|v: ValueModel|
                values.take(n).contains(v) <==> values.take(n - 1).contains(v) || v == values[n
                    - 1] by {
                if values.take(n).contains(v) {
                    let k = values.take(n).index_of(v);
                    if k < n - 1 {
                        assert(values.take(n - 1)[k] == v);
                    }
                }
                if values.take(n - 1).contains(v) {
                    let k = values.take(n - 1).index_of(v);
                    assert(values.take(n)[k] == v);
                }
                assert(values.take(n)[n - 1] == values[n - 1]);
            }
        }
    }

    proof fn lemma_ascending_same(a: Seq<ValueModel>, b: Seq<ValueModel>, i: int)
        requires
            ValueModel::ascending(a),
            ValueModel::ascending(b),
            forall|v: ValueModel| #[trigger] a.contains(v) <==> b.contains(v),
            0 <= i <= a.len(),
            i <= b.len(),
            forall|k: int| 0 <= k < i ==> a[k] == b[k],
        ensures
            a == b,
        decreases a.len() - i,
    {
        if i < a.len() {
            assert(a.contains(a[i]));
            assert(b.contains(a[i]));
            let k = b.index_of(a[i]);
            if k < i {
                a[k].lemma_before_strict(a[i]);
            }
            if k > i {
                assert(b.contains(b[i]));
                assert(a.contains(b[i]));
                let j = a.index_of(b[i]);
                if j < i {
                    b[j].lemma_before_strict(b[i]);
                }
                assert(b[i].before(b[k]));
                a[i].lemma_before_strict(b[i]);
                if j > i {
                    assert(a[i].before(a[j]));
                }
            }
            assert(a[i] == b[i]);
            ValueModel::lemma_ascending_same(a, b, i + 1);
        } else if i < b.len() {
            assert(b.contains(b[i]));
            assert(a.contains(b[i]));
            let j = a.index_of(b[i]);
            assert(b[j].before(b[i]));
            b[j].lemma_before_strict(b[i]);
        } else {
            assert(a =~= b);
        }
    }

    /// A set does not depend on the order in which its elements are given, nor on how often.
    pub proof fn lemma_same_set(values: Seq<ValueModel>, others: Seq<ValueModel>)
        requires
            forall|v: ValueModel| #[trigger] values.contains(v) <==> others.contains(v),
        ensures
            ValueModel::set_of(values, values.len() as int) == ValueModel::set_of(
                others,
                others.len() as int,
            ),
    {
        let a = ValueModel::set_of(values, values.len() as int);
        let b = ValueModel::set_of(others, others.len() as int);
        ValueModel::lemma_set_of(values, values.len() as int);
        ValueModel::lemma_set_of(others, others.len() as int);
        assert(values.take(values.len() as int) =~= values);
        assert(others.take(others.len() as int) =~= others);
        assert forall|v: ValueModel| #[trigger] a.contains(v) <==> b.contains(v) by {
            assert(values.contains(v) <==> others.contains(v));
        }
        ValueModel::lemma_ascending_same(a, b, 0);
    }
}

proof fn lemma_bytes_difference(a: Seq<u8>, b: Seq<u8>, k: int, i: int)
    requires
        0 <= k <= i < a.len(),
        i < b.len(),
        forall|j: int| k <= j < i ==> #[trigger] a[j] == b[j],
        a[i] != b[i],
    ensures
        crate::values::bytes_order(a, b, k) is Less <==> a[i] < b[i],
    decreases i - k,
{
    if k < i {
        lemma_bytes_difference(a, b, k + 1, i);
    }
}

proof fn lemma_bytes_prefix(a: Seq<u8>, b: Seq<u8>, k: int)
    requires
        0 <= k <= a.len() < b.len(),
        forall|j: int| k <= j < a.len() ==> #[trigger] a[j] == b[j],
    ensures
        crate::values::bytes_order(a, b, k) is Less,
    decreases a.len() - k,
{
    if k < a.len() {
        lemma_bytes_prefix(a, b, k + 1);
    }
}

impl ValueModel {
    /// Values of one kind come before those of another: first null, then booleans, integers,
    /// strings, lists, sets, syntax nodes, and at last graph nodes.
    pub proof fn lemma_order_of_kinds(self, other: ValueModel)
        ensures
            self is Null && !(other is Null) ==> self.before(other),
            self is Boolean && !(other is Null || other is Boolean) ==> self.before(other),
            self is Integer && (other is String || other is List || other is ValueSet
                || other is SyntaxNode || other is GraphNode) ==> self.before(other),
            self is String && (other is List || other is ValueSet || other is SyntaxNode
                || other is GraphNode) ==> self.before(other),
            self is List && (other is ValueSet || other is SyntaxNode || other is GraphNode)
                ==> self.before(other),
            self is ValueSet && (other is SyntaxNode || other is GraphNode) ==> self.before(other),
            self is SyntaxNode && other is GraphNode ==> self.before(other),
    {
        reveal(ValueModel::before);
    }

    /// False comes before true, and of two integers, or two graph nodes, the one with the smaller
    /// number.
    pub proof fn lemma_order_of_numbers(a: u32, b: u32, c: GraphNodeRef, d: GraphNodeRef)
        ensures
            ValueModel::Boolean(false).before(ValueModel::Boolean(true)),
            !ValueModel::Boolean(true).before(ValueModel::Boolean(false)),
            ValueModel::Integer(a).before(ValueModel::Integer(b)) <==> a < b,
            ValueModel::GraphNode(c).before(ValueModel::GraphNode(d)) <==> c.index < d.index,
    {
        reveal(ValueModel::before);
    }

    /// Of two syntax nodes the one with the smaller number comes first. If they have the same
    /// number, their kinds decide, and else their places, by row and column.
    pub proof fn lemma_order_of_syntax_nodes(a: SyntaxNodeModel, b: SyntaxNodeModel)
        ensures
            ({
                let before = ValueModel::SyntaxNode(a).before(ValueModel::SyntaxNode(b));
                &&& a.index != b.index ==> (before <==> a.index < b.index)
                &&& a.index == b.index && a.kind != b.kind ==> (before <==> ValueModel::String(
                    a.kind,
                ).before(ValueModel::String(b.kind)))
                &&& a.index == b.index && a.kind == b.kind && a.position.row != b.position.row ==> (
                before <==> a.position.row < b.position.row)
                &&& a.index == b.index && a.kind == b.kind && a.position.row == b.position.row ==> (
                before <==> a.position.column < b.position.column)
            }),
    {
        reveal(ValueModel::before);
        lemma_string_order(a.kind, b.kind);
    }

    /// Of two strings the first byte in which they differ decides which comes first, in UTF-8. If
    /// there is none, the shorter comes first.
    pub proof fn lemma_order_of_strings(a: Seq<char>, b: Seq<char>, i: int)
        requires
            0 <= i <= vstd::utf8::encode_utf8(a).len(),
            i < vstd::utf8::encode_utf8(b).len(),
            forall|j: int|
                0 <= j < i ==> #[trigger] vstd::utf8::encode_utf8(a)[j]
                    == vstd::utf8::encode_utf8(b)[j],
            i < vstd::utf8::encode_utf8(a).len() ==> vstd::utf8::encode_utf8(a)[i]
                != vstd::utf8::encode_utf8(b)[i],
        ensures
            ValueModel::String(a).before(ValueModel::String(b)) <==> i
                == vstd::utf8::encode_utf8(a).len() || vstd::utf8::encode_utf8(a)[i]
                < vstd::utf8::encode_utf8(b)[i],
    {
        reveal(ValueModel::before);
        let x = vstd::utf8::encode_utf8(a);
        let y = vstd::utf8::encode_utf8(b);
        if i < x.len() {
            lemma_bytes_difference(x, y, 0, i);
        } else {
            lemma_bytes_prefix(x, y, 0);
        }
    }

    /// Of two lists the first elements that differ decide which comes first. If there are none, the
    /// shorter comes first. The same holds of sets.
    pub proof fn lemma_order_of_lists(a: Seq<ValueModel>, b: Seq<ValueModel>, i: int)
        requires
            0 <= i <= a.len(),
            i < b.len(),
            forall|j: int| 0 <= j < i ==> #[trigger] a[j] == b[j],
            i < a.len() ==> a[i] != b[i],
        ensures
            ValueModel::List(a).before(ValueModel::List(b)) <==> i == a.len() || a[i].before(b[i]),
            ValueModel::ValueSet(a).before(ValueModel::ValueSet(b)) <==> i == a.len()
                || a[i].before(b[i]),
    {
        reveal(ValueModel::before);
        ValueModel::lemma_list_difference(a, b, 0, i);
    }

    proof fn lemma_list_difference(a: Seq<ValueModel>, b: Seq<ValueModel>, k: int, i: int)
        requires
            0 <= k <= i <= a.len(),
            i < b.len(),
            forall|j: int| 0 <= j < i ==> #[trigger] a[j] == b[j],
            i < a.len() ==> a[i] != b[i],
        ensures
            ValueModel::list_order(a, b, k) is Less <==> i == a.len() || a[i].before(b[i]),
        decreases i - k,
    {
        reveal(ValueModel::before);
        if k < i {
            a[k].lemma_order(b[k]);
            ValueModel::lemma_list_difference(a, b, k + 1, i);
        } else if i < a.len() {
            a[i].lemma_order(b[i]);
        }
    }
}

} // verus!
