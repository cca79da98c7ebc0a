//! Laws of how numbers, values and statements are shown.

use vstd::prelude::*;

use crate::ast::Attribute;
use crate::ast::Call;
use crate::ast::Condition;
use crate::ast::Expression;
use crate::ast::If;
use crate::ast::IfArm;
use crate::ast::ListLiteral;
use crate::ast::Print;
use crate::ast::SetLiteral;
use crate::ast::Statement;
use crate::ast::Variable;
use crate::error::ErrorModel;
use crate::lazy::statements::AttributeModel;
use crate::lazy::statements::LazyStatementModel;
use crate::lazy::statements::PrintModel;
use crate::lazy::store::ThunkStateModel;
use crate::lazy::values::LazyModel;
use crate::location::Location;
use crate::values::GraphNodeRef;
use crate::values::SyntaxNodeModel;
use crate::values::ValueModel;

verus! {

/// The number that a text of decimal digits stands for.
pub open spec fn number_of(text: Seq<char>) -> int
    decreases text.len(),
{
    if text.len() == 0 {
        0
    } else {
        10 * number_of(text.drop_last()) + (text.last() as int - '0' as int)
    }
}

proof fn lemma_digit(d: nat)
    requires
        d < 10,
    ensures
        crate::text::digit_text(d).len() == 1,
        crate::text::digit_text(d)[0] as int == '0' as int + d,
{
    reveal_strlit("0");
    reveal_strlit("1");
    reveal_strlit("2");
    reveal_strlit("3");
    reveal_strlit("4");
    reveal_strlit("5");
    reveal_strlit("6");
    reveal_strlit("7");
    reveal_strlit("8");
    reveal_strlit("9");
}

/// The decimal notation of a number consists of digits, stands for this number, and has no leading
/// zeros.
pub proof fn lemma_decimal(n: nat)
    ensures
        ({
            let text = crate::text::decimal_text(n);
            &&& text.len() > 0
            &&& forall|k: int| 0 <= k < text.len() ==> '0' <= #[trigger] text[k] <= '9'
            &&& number_of(text) == n
            &&& text.len() > 1 ==> text[0] != '0'
            &&& n > 0 ==> text[0] != '0'
        }),
    decreases n,
{
    let text = crate::text::decimal_text(n);
    if n < 10 {
        lemma_digit(n);
        assert(text.drop_last() =~= Seq::empty());
        assert(number_of(Seq::empty()) == 0);
    } else {
        lemma_decimal(n / 10);
        lemma_digit(n % 10);
        let high = crate::text::decimal_text(n / 10);
        let digit = crate::text::digit_text(n % 10);
        assert(text =~= high + digit);
        assert(text.drop_last() =~= high);
        assert(text.last() == digit[0]);
        assert forall|k: int| 0 <= k < text.len() implies '0' <= #[trigger] text[k] <= '9' by {
            if k < high.len() {
                assert(text[k] == high[k]);
            } else {
                assert(text[k] == digit[0]);
            }
        }
        assert(text[0] == high[0]);
    }
}

/// The texts, one after the other, with the separator between them.
pub open spec fn separated(separator: Seq<char>, texts: Seq<Seq<char>>) -> Seq<char>
    decreases texts.len(),
{
    if texts.len() == 0 {
        Seq::empty()
    } else if texts.len() == 1 {
        texts[0]
    } else {
        texts[0] + separator + separated(separator, texts.drop_first())
    }
}

/// The texts, one after the other, each after the first and before the second of the others.
pub open spec fn each_between(
    before: Seq<char>,
    texts: Seq<Seq<char>>,
    after: Seq<char>,
) -> Seq<char>
    decreases texts.len(),
{
    if texts.len() == 0 {
        Seq::empty()
    } else {
        before + texts[0] + after + each_between(before, texts.drop_first(), after)
    }
}

proof fn lemma_separated_push(separator: Seq<char>, texts: Seq<Seq<char>>, last: Seq<char>)
    requires
        texts.len() > 0,
    ensures
        separated(separator, texts.push(last)) == separated(separator, texts) + separator + last,
    decreases texts.len(),
{
    let more = texts.push(last);
    assert(more.drop_first() =~= texts.drop_first().push(last));
    if texts.len() > 1 {
        lemma_separated_push(separator, texts.drop_first(), last);
        assert(separated(separator, more) =~= separated(separator, texts) + separator + last);
    } else {
        assert(more.drop_first() =~= seq![last]);
        assert(separated(separator, seq![last]) == last);
    }
}

proof fn lemma_each_push(
    before: Seq<char>,
    texts: Seq<Seq<char>>,
    after: Seq<char>,
    last: Seq<char>,
)
    ensures
        each_between(before, texts.push(last), after) == each_between(before, texts, after)
            + before + last + after,
    decreases texts.len(),
{
    let more = texts.push(last);
    if texts.len() > 0 {
        assert(more.drop_first() =~= texts.drop_first().push(last));
        lemma_each_push(before, texts.drop_first(), after, last);
    } else {
        assert(more.drop_first() =~= Seq::empty());
        assert(each_between(before, Seq::empty(), after) =~= Seq::empty());
    }
    assert(each_between(before, more, after) =~= each_between(before, texts, after) + before
        + last + after);
}

/// How values are shown, each.
pub open spec fn values_shown(values: Seq<ValueModel>) -> Seq<Seq<char>> {
    values.map_values(|value: ValueModel| value.shown())
}

/// How expressions are shown, each.
pub open spec fn expressions_shown(expressions: Seq<Expression>) -> Seq<Seq<char>> {
    expressions.map_values(|expression: Expression| expression.shown())
}

/// How lazy values are shown, each.
pub open spec fn lazy_shown(values: Seq<LazyModel>) -> Seq<Seq<char>> {
    values.map_values(|value: LazyModel| value.shown())
}

/// How conditions are shown, each.
pub open spec fn conditions_shown(conditions: Seq<Condition>) -> Seq<Seq<char>> {
    conditions.map_values(|condition: Condition| condition.shown())
}

/// How attributes are written: the name, and after it the value.
pub open spec fn attributes_written(attributes: Seq<Attribute>) -> Seq<Seq<char>> {
    attributes.map_values(|a: Attribute| a.name@ + " = "@ + a.value.shown())
}

/// How attributes with lazy values are written.
pub open spec fn lazy_attributes_written(attributes: Seq<AttributeModel>) -> Seq<Seq<char>> {
    attributes.map_values(|a: AttributeModel| a.name + " = "@ + a.value.shown())
}

/// How the arguments of a print statement are written: a text in double quotes, and a lazy value as
/// it is shown.
pub open spec fn arguments_written(arguments: Seq<PrintModel>) -> Seq<Seq<char>> {
    arguments.map_values(
        |argument: PrintModel|
            match argument {
                PrintModel::Text(text) => "\""@ + text + "\""@,
                PrintModel::Value(value) => value.shown(),
            },
    )
}

proof fn lemma_values_from(start: Seq<char>, values: Seq<ValueModel>, n: int)
    requires
        0 <= n <= values.len(),
    ensures
        ValueModel::list_shown(start, values, n) == start + separated(
            ", "@,
            values_shown(values.take(n)),
        ),
    decreases n,
{
    if n > 1 {
        lemma_values_from(start, values, n - 1);
        lemma_separated_push(", "@, values_shown(values.take(n - 1)), values[n - 1].shown());
        assert(values_shown(values.take(n)) =~= values_shown(values.take(n - 1)).push(
            values[n - 1].shown(),
        ));
        assert(ValueModel::list_shown(start, values, n) =~= start + separated(
            ", "@,
            values_shown(values.take(n)),
        ));
    } else if n == 1 {
        assert(values_shown(values.take(1)) =~= seq![values[0].shown()]);
    } else {
        assert(values_shown(values.take(0)) =~= Seq::empty());
        assert(start + Seq::<char>::empty() =~= start);
    }
}

impl ValueModel {
    /// A list is shown by its elements, in their order, with commas between them, in square
    /// brackets, and a set in the same way in braces.
    pub proof fn lemma_list_shown(values: Seq<ValueModel>)
        ensures
            ValueModel::List(values).shown() == "["@ + separated(", "@, values_shown(values))
                + "]"@,
            ValueModel::ValueSet(values).shown() == "{"@ + separated(", "@, values_shown(values))
                + "}"@,
    {
        let n = values.len() as int;
        assert(values.take(n) =~= values);
        lemma_values_from("["@, values, n);
        lemma_values_from("{"@, values, n);
    }

    /// How the other values are shown.
    pub proof fn lemma_shown(self, node: SyntaxNodeModel, number: GraphNodeRef)
        ensures
            ValueModel::Null.shown() == "#null"@,
            ValueModel::Boolean(true).shown() == "#true"@,
            ValueModel::Boolean(false).shown() == "#false"@,
            self matches ValueModel::Integer(n) ==> number_of(self.shown()) == n,
            self matches ValueModel::String(s) ==> self.shown() == crate::text::quoted_text(s),
            ValueModel::SyntaxNode(node).shown() == "[syntax node "@ + node.kind + " ("@
                + crate::text::decimal_text((node.position.row + 1) as nat) + ", "@
                + crate::text::decimal_text((node.position.column + 1) as nat) + ")]"@,
            ValueModel::GraphNode(number).shown() == "[graph node "@
                + crate::text::decimal_text(number.index as nat) + "]"@,
    {
        if let ValueModel::Integer(n) = self {
            lemma_decimal(n as nat);
        }
        let row = crate::text::decimal_text((node.position.row + 1) as nat);
        let column = crate::text::decimal_text((node.position.column + 1) as nat);
        reveal_strlit(" ");
        reveal_strlit("(");
        reveal_strlit(" (");
        reveal_strlit(")");
        reveal_strlit("]");
        reveal_strlit(")]");
        assert(" ("@ =~= " "@ + "("@);
        assert(")]"@ =~= ")"@ + "]"@);
        assert(ValueModel::SyntaxNode(node).shown() =~= "[syntax node "@ + node.kind + " ("@ + row
            + ", "@ + column + ")]"@);
    }

    /// A value is taken for what it is, and a value of another kind is an error that tells what was
    /// got.
    pub proof fn lemma_conversions(self)
        ensures
            match self.into_boolean() {
                Ok(b) => self == ValueModel::Boolean(b),
                Err(e) => !(self is Boolean) && e == ErrorModel::ExpectedBoolean(
                    "got "@ + self.shown(),
                ),
            },
            match self.into_string() {
                Ok(s) => self == ValueModel::String(s),
                Err(e) => !(self is String) && e == ErrorModel::ExpectedString(
                    "got "@ + self.shown(),
                ),
            },
            match self.into_list() {
                Ok(values) => self == ValueModel::List(values),
                Err(e) => !(self is List) && e == ErrorModel::ExpectedList(
                    "got "@ + self.shown(),
                ),
            },
            match self.into_syntax_node() {
                Ok(node) => self == ValueModel::SyntaxNode(node),
                Err(e) => !(self is SyntaxNode) && e == ErrorModel::ExpectedSyntaxNode(
                    "got "@ + self.shown(),
                ),
            },
            match self.into_graph_node() {
                Ok(node) => self == ValueModel::GraphNode(node),
                Err(e) => !(self is GraphNode) && e == ErrorModel::ExpectedGraphNode(
                    "got "@ + self.shown(),
                ),
            },
    {
    }
}

proof fn lemma_elements_from(start: Seq<char>, elements: Seq<Expression>, n: int)
    requires
        0 <= n <= elements.len(),
    ensures
        Expression::list_shown(start, elements, n) == start + separated(
            ", "@,
            expressions_shown(elements.take(n)),
        ),
    decreases n,
{
    if n > 1 {
        lemma_elements_from(start, elements, n - 1);
        lemma_separated_push(
            ", "@,
            expressions_shown(elements.take(n - 1)),
            elements[n - 1].shown(),
        );
        assert(expressions_shown(elements.take(n)) =~= expressions_shown(
            elements.take(n - 1),
        ).push(elements[n - 1].shown()));
        assert(Expression::list_shown(start, elements, n) =~= start + separated(
            ", "@,
            expressions_shown(elements.take(n)),
        ));
    } else if n == 1 {
        assert(expressions_shown(elements.take(1)) =~= seq![elements[0].shown()]);
    } else {
        assert(expressions_shown(elements.take(0)) =~= Seq::empty());
        assert(start + Seq::<char>::empty() =~= start);
    }
}

proof fn lemma_terms_from(start: Seq<char>, terms: Seq<Expression>, n: int)
    requires
        0 <= n <= terms.len(),
    ensures
        Expression::terms_shown(start, terms, n) == start + each_between(
            " "@,
            expressions_shown(terms.take(n)),
            Seq::empty(),
        ),
    decreases n,
{
    if n > 0 {
        lemma_terms_from(start, terms, n - 1);
        lemma_each_push(
            " "@,
            expressions_shown(terms.take(n - 1)),
            Seq::empty(),
            terms[n - 1].shown(),
        );
        assert(expressions_shown(terms.take(n)) =~= expressions_shown(terms.take(n - 1)).push(
            terms[n - 1].shown(),
        ));
        assert(Expression::terms_shown(start, terms, n) =~= start + each_between(
            " "@,
            expressions_shown(terms.take(n)),
            Seq::empty(),
        ));
    } else {
        assert(expressions_shown(terms.take(0)) =~= Seq::empty());
        assert(start + Seq::<char>::empty() =~= start);
    }
}

impl Expression {
    /// The elements of a list or a set are shown in their order, with commas between them, and so
    /// are the arguments of a call, each after a space.
    pub proof fn lemma_list_shown(list: ListLiteral, set: SetLiteral, call: Call)
        ensures
            Expression::ListLiteral(list).shown() == "["@ + separated(
                ", "@,
                expressions_shown(list.elements@),
            ) + "]"@,
            Expression::SetLiteral(set).shown() == "{"@ + separated(
                ", "@,
                expressions_shown(set.elements@),
            ) + "}"@,
            Expression::Call(call).shown() == "("@ + call.function@ + each_between(
                " "@,
                expressions_shown(call.parameters@),
                Seq::empty(),
            ) + ")"@,
    {
        let elements = list.elements@;
        assert(elements.take(elements.len() as int) =~= elements);
        lemma_elements_from("["@, elements, elements.len() as int);
        let elements = set.elements@;
        assert(elements.take(elements.len() as int) =~= elements);
        lemma_elements_from("{"@, elements, elements.len() as int);
        let terms = call.parameters@;
        assert(terms.take(terms.len() as int) =~= terms);
        lemma_terms_from("("@ + call.function@, terms, terms.len() as int);
    }
}

impl Expression {
    /// The other expressions are shown as they are written: constants, comprehensions with their
    /// element before and the list that they go through after the variable, captures, groups and
    /// variables.
    pub proof fn lemma_shown(self)
        ensures
            match self {
                Expression::FalseLiteral => self.shown() == "#false"@,
                Expression::NullLiteral => self.shown() == "#null"@,
                Expression::TrueLiteral => self.shown() == "#true"@,
                Expression::IntegerConstant(e) => number_of(self.shown()) == e.value,
                Expression::StringConstant(e) => self.shown() == crate::text::quoted_text(e.value@),
                Expression::ListComprehension(e) => self.shown() == "[ "@ + e.element.shown()
                    + " for "@ + e.variable.name@ + " in "@ + e.value.shown() + " ]"@,
                Expression::SetComprehension(e) => self.shown() == "{ "@ + e.element.shown()
                    + " for "@ + e.variable.name@ + " in "@ + e.value.shown() + " }"@,
                Expression::Capture(e) => self.shown() == "@"@ + e.name@,
                Expression::RegexCapture(e) => self.shown().len() > 0 && number_of(
                    self.shown().drop_first(),
                ) == e.match_index && self.shown()[0] == '$',
                Expression::Variable(Variable::Scoped(v)) => self.shown() == v.scope.shown() + "."@
                    + v.name@,
                Expression::Variable(Variable::Unscoped(v)) => self.shown() == v.name@,
                _ => true,
            },
    {
        match self {
            Expression::IntegerConstant(e) => lemma_decimal(e.value as nat),
            Expression::RegexCapture(e) => {
                reveal_strlit("$");
                let number = crate::text::decimal_text(e.match_index as nat);
                lemma_decimal(e.match_index as nat);
                assert(self.shown() =~= "$"@ + number);
                assert(self.shown().drop_first() =~= number);
            },
            Expression::Variable(v) => {
                assert(self.shown() == v.shown());
            },
            _ => {},
        }
    }
}

impl Condition {
    /// A condition is shown by its value, after what it asks of that.
    pub proof fn lemma_shown(self)
        ensures
            self.shown() == match self {
                Condition::IsSome { value, .. } => "some "@ + value.shown(),
                Condition::IsNone { value, .. } => "none "@ + value.shown(),
                Condition::Bool { value, .. } => value.shown(),
            },
    {
    }
}

impl ThunkStateModel {
    /// A thunk is shown by a mark of its state, and by what it holds, unless it is being forced.
    pub proof fn lemma_shown(self)
        ensures
            self.shown() == match self {
                ThunkStateModel::Unforced(value) => "?{"@ + value.shown() + "}"@,
                ThunkStateModel::Forcing => "~{?}"@,
                ThunkStateModel::Forced(value) => "!{"@ + value.shown() + "}"@,
            },
    {
    }
}

proof fn lemma_attributes_from(start: Seq<char>, attributes: Seq<Attribute>, n: int)
    requires
        0 <= n <= attributes.len(),
    ensures
        Attribute::all_shown(start, attributes, n) == start + each_between(
            " "@,
            attributes_written(attributes.take(n)),
            Seq::empty(),
        ),
    decreases n,
{
    if n > 0 {
        lemma_attributes_from(start, attributes, n - 1);
        lemma_each_push(
            " "@,
            attributes_written(attributes.take(n - 1)),
            Seq::empty(),
            attributes[n - 1].shown(),
        );
        assert(attributes_written(attributes.take(n)) =~= attributes_written(
            attributes.take(n - 1),
        ).push(attributes[n - 1].shown()));
        assert(Attribute::all_shown(start, attributes, n) =~= start + each_between(
            " "@,
            attributes_written(attributes.take(n)),
            Seq::empty(),
        ));
    } else {
        assert(attributes_written(attributes.take(0)) =~= Seq::empty());
        assert(start + Seq::<char>::empty() =~= start);
    }
}

proof fn lemma_conditions_from(start: Seq<char>, conditions: Seq<Condition>, n: int)
    requires
        0 <= n <= conditions.len(),
    ensures
        Condition::all_shown(start, conditions, n) == start + separated(
            ", "@,
            conditions_shown(conditions.take(n)),
        ),
    decreases n,
{
    if n > 1 {
        lemma_conditions_from(start, conditions, n - 1);
        lemma_separated_push(
            ", "@,
            conditions_shown(conditions.take(n - 1)),
            conditions[n - 1].shown(),
        );
        assert(conditions_shown(conditions.take(n)) =~= conditions_shown(
            conditions.take(n - 1),
        ).push(conditions[n - 1].shown()));
        assert(Condition::all_shown(start, conditions, n) =~= start + separated(
            ", "@,
            conditions_shown(conditions.take(n)),
        ));
    } else if n == 1 {
        assert(conditions_shown(conditions.take(1)) =~= seq![conditions[0].shown()]);
    } else {
        assert(conditions_shown(conditions.take(0)) =~= Seq::empty());
        assert(start + Seq::<char>::empty() =~= start);
    }
}

proof fn lemma_print_from(values: Seq<Expression>, n: int)
    requires
        0 <= n <= values.len(),
    ensures
        Print::values_shown(values, n) == "print"@ + each_between(
            " "@,
            expressions_shown(values.take(n)),
            ","@,
        ),
    decreases n,
{
    if n > 0 {
        lemma_print_from(values, n - 1);
        lemma_each_push(
            " "@,
            expressions_shown(values.take(n - 1)),
            ","@,
            values[n - 1].shown(),
        );
        assert(expressions_shown(values.take(n)) =~= expressions_shown(values.take(n - 1)).push(
            values[n - 1].shown(),
        ));
        assert(Print::values_shown(values, n) =~= "print"@ + each_between(
            " "@,
            expressions_shown(values.take(n)),
            ","@,
        ));
    } else {
        assert(expressions_shown(values.take(0)) =~= Seq::empty());
        assert("print"@ + Seq::<char>::empty() =~= "print"@);
    }
}

/// How an arm of an if statement is written, without its statements.
pub open spec fn arm_written(arms: Seq<IfArm>, k: int) -> Seq<char> {
    let conditions = separated(", "@, conditions_shown(arms[k].conditions@));
    if k == 0 {
        "if "@ + conditions + " { ... }"@
    } else if arms[k].conditions@.len() == 0 {
        " else { ... }"@
    } else {
        " elif "@ + conditions + " { ... }"@
    }
}

proof fn lemma_arms_from(arms: Seq<IfArm>, n: int)
    requires
        0 <= n <= arms.len(),
    ensures
        If::arms_shown(arms, n) == crate::lazy::result_laws::joined(
            Seq::new(n as nat, |k: int| arm_written(arms, k)),
        ),
    decreases n,
{
    let written = Seq::new(n as nat, |k: int| arm_written(arms, k));
    if n > 0 {
        lemma_arms_from(arms, n - 1);
        let before = If::arms_shown(arms, n - 1);
        let conditions = arms[n - 1].conditions@;
        assert(written.drop_last() =~= Seq::new((n - 1) as nat, |k: int| arm_written(arms, k)));
        assert(conditions.take(conditions.len() as int) =~= conditions);
        lemma_conditions_from(before + "if "@, conditions, conditions.len() as int);
        lemma_conditions_from(before + " elif "@, conditions, conditions.len() as int);
        assert(" else"@ + " { ... }"@ =~= " else { ... }"@) by {
            reveal_strlit(" else");
            reveal_strlit(" { ... }");
            reveal_strlit(" else { ... }");
        }
        assert(If::arms_shown(arms, n) =~= before + arm_written(arms, n - 1));
    } else {
        assert(written =~= Seq::empty());
    }
}

impl Statement {
    /// How a statement is written, without the statements inside of it and its location.
    pub open spec fn written(self) -> Seq<char> {
        match self {
            Statement::DeclareImmutable(s) => "let "@ + s.variable.shown() + " = "@
                + s.value.shown(),
            Statement::DeclareMutable(s) => "var "@ + s.variable.shown() + " = "@
                + s.value.shown(),
            Statement::Assign(s) => "set "@ + s.variable.shown() + " = "@ + s.value.shown(),
            Statement::CreateGraphNode(s) => "node "@ + s.node.shown(),
            Statement::AddGraphNodeAttribute(s) => "attr ("@ + s.node.shown() + ")"@
                + each_between(" "@, attributes_written(s.attributes@), Seq::empty()),
            Statement::CreateEdge(s) => "edge "@ + s.source.shown() + " -> "@ + s.sink.shown(),
            Statement::AddEdgeAttribute(s) => "attr ("@ + s.source.shown() + " -> "@
                + s.sink.shown() + ")"@ + each_between(
                " "@,
                attributes_written(s.attributes@),
                Seq::empty(),
            ),
            Statement::Scan(s) => "scan "@ + s.value.shown() + " { ... }"@,
            Statement::Print(s) => "print"@ + each_between(
                " "@,
                expressions_shown(s.values@),
                ","@,
            ),
            Statement::If(s) => crate::lazy::result_laws::joined(
                Seq::new(s.arms@.len(), |k: int| arm_written(s.arms@, k)),
            ),
            Statement::ForIn(s) => "for "@ + s.variable.name@ + " in "@ + s.value.shown()
                + " { ... }"@,
        }
    }

    /// Where a statement stands.
    pub open spec fn place(self) -> Location {
        match self {
            Statement::DeclareImmutable(s) => s.location,
            Statement::DeclareMutable(s) => s.location,
            Statement::Assign(s) => s.location,
            Statement::CreateGraphNode(s) => s.location,
            Statement::AddGraphNodeAttribute(s) => s.location,
            Statement::CreateEdge(s) => s.location,
            Statement::AddEdgeAttribute(s) => s.location,
            Statement::Scan(s) => s.location,
            Statement::Print(s) => s.location,
            Statement::If(s) => s.location,
            Statement::ForIn(s) => s.location,
        }
    }

    /// A statement is shown as it is written, and with its own location, counted from one.
    pub proof fn lemma_shown(self)
        ensures
            self.at() == self.place(),
            self.shown() == self.written() + " at ("@ + crate::text::decimal_text(
                (self.place().row + 1) as nat,
            ) + ", "@ + crate::text::decimal_text((self.place().column + 1) as nat) + ")"@,
    {
        match self {
            Statement::AddGraphNodeAttribute(s) => {
                let start = "attr ("@ + s.node.shown() + ")"@;
                let n = s.attributes@.len() as int;
                assert(s.attributes@.take(n) =~= s.attributes@);
                lemma_attributes_from(start, s.attributes@, n);
            },
            Statement::AddEdgeAttribute(s) => {
                let start = "attr ("@ + s.source.shown() + " -> "@ + s.sink.shown() + ")"@;
                let n = s.attributes@.len() as int;
                assert(s.attributes@.take(n) =~= s.attributes@);
                lemma_attributes_from(start, s.attributes@, n);
            },
            Statement::Print(s) => {
                assert(s.values@.take(s.values@.len() as int) =~= s.values@);
                lemma_print_from(s.values@, s.values@.len() as int);
            },
            Statement::If(s) => {
                lemma_arms_from(s.arms@, s.arms@.len() as int);
            },
            _ => {},
        }
        assert(" at ("@ =~= " at "@ + "("@) by {
            reveal_strlit(" at ");
            reveal_strlit("(");
            reveal_strlit(" at (");
        }
        let row = crate::text::decimal_text((self.place().row + 1) as nat);
        let column = crate::text::decimal_text((self.place().column + 1) as nat);
        assert(self.shown() == self.written() + " at "@ + self.place().shown());
        assert(self.shown() =~= self.written() + " at ("@ + row + ", "@ + column + ")"@);
    }
}

proof fn lemma_lazy_terms_from(start: Seq<char>, terms: Seq<LazyModel>, n: int)
    requires
        0 <= n <= terms.len(),
    ensures
        LazyModel::terms_shown(start, terms, n) == start + each_between(
            " "@,
            lazy_shown(terms.take(n)),
            Seq::empty(),
        ),
    decreases n,
{
    if n > 0 {
        lemma_lazy_terms_from(start, terms, n - 1);
        lemma_each_push(
            " "@,
            lazy_shown(terms.take(n - 1)),
            Seq::empty(),
            terms[n - 1].shown(),
        );
        assert(lazy_shown(terms.take(n)) =~= lazy_shown(terms.take(n - 1)).push(
            terms[n - 1].shown(),
        ));
        assert(LazyModel::terms_shown(start, terms, n) =~= start + each_between(
            " "@,
            lazy_shown(terms.take(n)),
            Seq::empty(),
        ));
    } else {
        assert(lazy_shown(terms.take(0)) =~= Seq::empty());
        assert(start + Seq::<char>::empty() =~= start);
    }
}

impl LazyModel {
    /// A lazy value that is a value is shown as that, and a variable by its number, or by its scope
    /// and its name.
    pub proof fn lemma_variable_shown(
        value: ValueModel,
        location: usize,
        scope: LazyModel,
        name: Seq<char>,
    )
        ensures
            LazyModel::Value(value).shown() == value.shown(),
            LazyModel::Variable(location).shown() == "(load "@ + crate::text::decimal_text(
                location as nat,
            ) + ")"@,
            LazyModel::ScopedVariable(Box::new(scope), name).shown() == "(scoped "@ + scope.shown()
                + " '"@ + name + ")"@,
    {
    }

    /// The parts of a lazy value are shown in their order, each after a space.
    pub proof fn lemma_shown(function: Seq<char>, values: Seq<LazyModel>)
        ensures
            LazyModel::List(values).shown() == "(list"@ + each_between(
                " "@,
                lazy_shown(values),
                Seq::empty(),
            ) + ")"@,
            LazyModel::LazySet(values).shown() == "(set"@ + each_between(
                " "@,
                lazy_shown(values),
                Seq::empty(),
            ) + ")"@,
            LazyModel::Call(function, values).shown() == "(call '"@ + function + each_between(
                " "@,
                lazy_shown(values),
                Seq::empty(),
            ) + ")"@,
    {
        let n = values.len() as int;
        assert(values.take(n) =~= values);
        lemma_lazy_terms_from("(list"@, values, n);
        lemma_lazy_terms_from("(set"@, values, n);
        lemma_lazy_terms_from("(call '"@ + function, values, n);
    }
}

proof fn lemma_lazy_attributes_from(start: Seq<char>, attributes: Seq<AttributeModel>, n: int)
    requires
        0 <= n <= attributes.len(),
    ensures
        LazyStatementModel::attributes_shown(start, attributes, n) == start + each_between(
            " "@,
            lazy_attributes_written(attributes.take(n)),
            Seq::empty(),
        ),
    decreases n,
{
    if n > 0 {
        lemma_lazy_attributes_from(start, attributes, n - 1);
        let last = attributes[n - 1];
        let text = last.name + " = "@ + last.value.shown();
        lemma_each_push(
            " "@,
            lazy_attributes_written(attributes.take(n - 1)),
            Seq::empty(),
            text,
        );
        assert(lazy_attributes_written(attributes.take(n)) =~= lazy_attributes_written(
            attributes.take(n - 1),
        ).push(text));
        assert(LazyStatementModel::attributes_shown(start, attributes, n) =~= start
            + each_between(" "@, lazy_attributes_written(attributes.take(n)), Seq::empty()));
    } else {
        assert(lazy_attributes_written(attributes.take(0)) =~= Seq::empty());
        assert(start + Seq::<char>::empty() =~= start);
    }
}

proof fn lemma_lazy_prints_from(arguments: Seq<PrintModel>, n: int)
    requires
        0 <= n <= arguments.len(),
    ensures
        LazyStatementModel::prints_shown(arguments, n) == "print"@ + each_between(
            " "@,
            arguments_written(arguments.take(n)),
            ","@,
        ),
    decreases n,
{
    if n > 0 {
        lemma_lazy_prints_from(arguments, n - 1);
        let text = match arguments[n - 1] {
            PrintModel::Text(text) => "\""@ + text + "\""@,
            PrintModel::Value(value) => value.shown(),
        };
        lemma_each_push(" "@, arguments_written(arguments.take(n - 1)), ","@, text);
        assert(arguments_written(arguments.take(n)) =~= arguments_written(
            arguments.take(n - 1),
        ).push(text));
        assert(LazyStatementModel::prints_shown(arguments, n) =~= "print"@ + each_between(
            " "@,
            arguments_written(arguments.take(n)),
            ","@,
        ));
    } else {
        assert(arguments_written(arguments.take(0)) =~= Seq::empty());
        assert("print"@ + Seq::<char>::empty() =~= "print"@);
    }
}

impl LazyStatementModel {
    /// A statement of the lazy graph is shown with the values in it, in their order, and with its
    /// own location.
    pub proof fn lemma_shown(self)
        ensures
            self.shown() == match self {
                LazyStatementModel::AddGraphNodeAttribute { node, attributes, debug_info } => {
                    "attr ("@ + node.shown() + ")"@ + each_between(
                        " "@,
                        lazy_attributes_written(attributes),
                        Seq::empty(),
                    ) + " at "@ + debug_info.shown()
                },
                LazyStatementModel::CreateEdge { source, sink, debug_info } => {
                    "edge "@ + source.shown() + " -> "@ + sink.shown() + " at "@
                        + debug_info.shown()
                },
                LazyStatementModel::AddEdgeAttribute { source, sink, attributes, debug_info } => {
                    "attr ("@ + source.shown() + " -> "@ + sink.shown() + ")"@ + each_between(
                        " "@,
                        lazy_attributes_written(attributes),
                        Seq::empty(),
                    ) + " at "@ + debug_info.shown()
                },
                LazyStatementModel::Print { arguments, debug_info } => {
                    "print"@ + each_between(" "@, arguments_written(arguments), ","@) + " at "@
                        + debug_info.shown()
                },
            },
    {
        match self {
            LazyStatementModel::AddGraphNodeAttribute { node, attributes, .. } => {
                let n = attributes.len() as int;
                assert(attributes.take(n) =~= attributes);
                lemma_lazy_attributes_from("attr ("@ + node.shown() + ")"@, attributes, n);
            },
            LazyStatementModel::AddEdgeAttribute { source, sink, attributes, .. } => {
                let start = "attr ("@ + source.shown() + " -> "@ + sink.shown() + ")"@;
                let n = attributes.len() as int;
                assert(attributes.take(n) =~= attributes);
                lemma_lazy_attributes_from(start, attributes, n);
            },
            LazyStatementModel::Print { arguments, .. } => {
                let n = arguments.len() as int;
                assert(arguments.take(n) =~= arguments);
                lemma_lazy_prints_from(arguments, n);
            },
            _ => {},
        }
    }
}

} // verus!
