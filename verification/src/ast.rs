//! Programs.

use vstd::prelude::*;
use vstd::string::*;

use crate::identifier::Identifier;
use crate::location::Location;
use crate::table::Key;
use crate::text::decimal;
use crate::text::quoted;

verus! {

/// How often a capture can occur in a match.
#[derive(Clone, Copy, Debug, PartialEq, Eq, Structural)]
pub enum CaptureQuantifier {
    Zero,
    ZeroOrOne,
    ZeroOrMore,
    One,
    OneOrMore,
}

/// A program: what to do for each match of its query.
pub struct File {
    pub globals: Vec<Global>,
    pub query: Option<tree_sitter::Query>,
    pub stanzas: Vec<Stanza>,
    pub shorthands: AttributeShorthands,
}

/// A global variable that a program expects to be given.
pub struct Global {
    pub name: Identifier,
    pub quantifier: CaptureQuantifier,
    pub default: Option<String>,
    pub location: Location,
}

/// What to do for each match of one pattern of the query.
pub struct Stanza {
    pub statements: Vec<Statement>,
    /// The index of the capture of the whole match.
    pub full_match_file_capture_index: usize,
    pub location: Location,
}

/// A statement.
pub enum Statement {
    DeclareImmutable(DeclareImmutable),
    DeclareMutable(DeclareMutable),
    Assign(Assign),
    CreateGraphNode(CreateGraphNode),
    AddGraphNodeAttribute(AddGraphNodeAttribute),
    CreateEdge(CreateEdge),
    AddEdgeAttribute(AddEdgeAttribute),
    Scan(Scan),
    Print(Print),
    If(If),
    ForIn(ForIn),
}

/// Declares a variable that cannot be assigned.
pub struct DeclareImmutable {
    pub variable: Variable,
    pub value: Expression,
    pub location: Location,
}

/// Declares a variable that can be assigned.
pub struct DeclareMutable {
    pub variable: Variable,
    pub value: Expression,
    pub location: Location,
}

/// Assigns a variable.
pub struct Assign {
    pub variable: Variable,
    pub value: Expression,
    pub location: Location,
}

/// Creates a graph node.
pub struct CreateGraphNode {
    pub node: Variable,
    pub location: Location,
}

/// Sets attributes of a graph node.
pub struct AddGraphNodeAttribute {
    pub node: Expression,
    pub attributes: Vec<Attribute>,
    pub location: Location,
}

/// Creates an edge.
pub struct CreateEdge {
    pub source: Expression,
    pub sink: Expression,
    pub location: Location,
}

/// Sets attributes of an edge.
pub struct AddEdgeAttribute {
    pub source: Expression,
    pub sink: Expression,
    pub attributes: Vec<Attribute>,
    pub location: Location,
}

/// Goes through a string from match to match of the arms.
pub struct Scan {
    pub value: Expression,
    pub arms: Vec<ScanArm>,
    pub location: Location,
}

/// What to do for each match of a regular expression.
pub struct ScanArm {
    pub regex: regex::Regex,
    pub statements: Vec<Statement>,
    pub location: Location,
}

/// Prints a line.
pub struct Print {
    pub values: Vec<Expression>,
    pub location: Location,
}

/// Does what the first arm says whose conditions hold.
pub struct If {
    pub arms: Vec<IfArm>,
    pub location: Location,
}

/// What to do if all the conditions hold.
pub struct IfArm {
    pub conditions: Vec<Condition>,
    pub statements: Vec<Statement>,
    pub location: Location,
}

/// A condition.
pub enum Condition {
    IsSome { value: Expression, location: Location },
    IsNone { value: Expression, location: Location },
    Bool { value: Expression, location: Location },
}

/// Does something for each element of a list.
pub struct ForIn {
    pub variable: UnscopedVariable,
    pub value: Expression,
    pub statements: Vec<Statement>,
    pub location: Location,
}

/// An attribute, or the use of a shorthand.
pub struct Attribute {
    pub name: Identifier,
    pub value: Expression,
}

/// Stands for several attributes, the values of which are computed from that of a variable.
pub struct AttributeShorthand {
    pub name: Identifier,
    pub variable: UnscopedVariable,
    pub attributes: Vec<Attribute>,
    pub location: Location,
}

/// The shorthands of a program. Of several with the same name, the last counts.
pub struct AttributeShorthands {
    pub list: Vec<AttributeShorthand>,
}

/// An expression.
pub enum Expression {
    FalseLiteral,
    NullLiteral,
    TrueLiteral,
    IntegerConstant(IntegerConstant),
    StringConstant(StringConstant),
    ListLiteral(ListLiteral),
    SetLiteral(SetLiteral),
    ListComprehension(ListComprehension),
    SetComprehension(SetComprehension),
    Capture(Capture),
    Variable(Variable),
    Call(Call),
    RegexCapture(RegexCapture),
}

/// An integer.
pub struct IntegerConstant {
    pub value: u32,
}

/// A string.
pub struct StringConstant {
    pub value: String,
}

/// A list.
pub struct ListLiteral {
    pub elements: Vec<Expression>,
}

/// A set.
pub struct SetLiteral {
    pub elements: Vec<Expression>,
}

/// The list of what an expression is for each element of a list.
pub struct ListComprehension {
    pub element: Box<Expression>,
    pub variable: UnscopedVariable,
    pub value: Box<Expression>,
    pub location: Location,
}

/// The set of what an expression is for each element of a list.
pub struct SetComprehension {
    pub element: Box<Expression>,
    pub variable: UnscopedVariable,
    pub value: Box<Expression>,
    pub location: Location,
}

/// What the match of a stanza captured.
pub struct Capture {
    pub name: Identifier,
    pub quantifier: CaptureQuantifier,
    pub file_capture_index: usize,
    pub location: Location,
}

/// A function call.
pub struct Call {
    pub function: Identifier,
    pub parameters: Vec<Expression>,
}

/// What a group of the regular expression of a scan matched.
pub struct RegexCapture {
    pub match_index: usize,
}

/// A variable.
pub enum Variable {
    Scoped(ScopedVariable),
    Unscoped(UnscopedVariable),
}

/// A variable of a syntax node.
pub struct ScopedVariable {
    pub scope: Box<Expression>,
    pub name: Identifier,
    pub location: Location,
}

/// A variable that is global, or local to a block.
pub struct UnscopedVariable {
    pub name: Identifier,
    pub location: Location,
}

impl Expression {
    /// An expression is shown as it is written.
    pub open spec fn shown(self) -> Seq<char>
        decreases self, 0int,
    {
        match self {
            Expression::FalseLiteral => "#false"@,
            Expression::NullLiteral => "#null"@,
            Expression::TrueLiteral => "#true"@,
            Expression::IntegerConstant(e) => crate::text::decimal_text(e.value as nat),
            Expression::StringConstant(e) => crate::text::quoted_text(e.value@),
            Expression::ListLiteral(e) => Expression::list_shown(
                "["@,
                e.elements@,
                e.elements@.len() as int,
            ) + "]"@,
            Expression::SetLiteral(e) => Expression::list_shown(
                "{"@,
                e.elements@,
                e.elements@.len() as int,
            ) + "}"@,
            Expression::ListComprehension(e) => "[ "@ + e.element.shown() + " for "@
                + e.variable.name@ + " in "@ + e.value.shown() + " ]"@,
            Expression::SetComprehension(e) => "{ "@ + e.element.shown() + " for "@
                + e.variable.name@ + " in "@ + e.value.shown() + " }"@,
            Expression::Capture(e) => "@"@ + e.name@,
            Expression::Variable(e) => e.shown(),
            Expression::Call(e) => Expression::terms_shown(
                "("@ + e.function@,
                e.parameters@,
                e.parameters@.len() as int,
            ) + ")"@,
            Expression::RegexCapture(e) => "$"@ + crate::text::decimal_text(e.match_index as nat),
        }
    }

    /// `start`, and after it the first `n` of the expressions, separated by commas.
    pub open spec fn list_shown(start: Seq<char>, elements: Seq<Expression>, n: int) -> Seq<char>
        decreases elements, n,
    {
        if n <= 0 || n > elements.len() {
            start
        } else if n == 1 {
            start + elements[0].shown()
        } else {
            Expression::list_shown(start, elements, n - 1) + ", "@ + elements[n - 1].shown()
        }
    }

    /// `start`, and after it the first `n` of the expressions, each after a space.
    pub open spec fn terms_shown(start: Seq<char>, terms: Seq<Expression>, n: int) -> Seq<char>
        decreases terms, n,
    {
        if n <= 0 || n > terms.len() {
            start
        } else {
            Expression::terms_shown(start, terms, n - 1) + " "@ + terms[n - 1].shown()
        }
    }

    pub fn text(&self) -> (r: String)
        ensures
            r@ == self.shown(),
        decreases self, 0int,
    {
        match self {
            Expression::FalseLiteral => "#false".to_owned(),
            Expression::NullLiteral => "#null".to_owned(),
            Expression::TrueLiteral => "#true".to_owned(),
            Expression::IntegerConstant(e) => decimal(e.value as u128),
            Expression::StringConstant(e) => quoted(e.value.as_str()),
            Expression::ListLiteral(e) => {
                let mut r = Expression::list_text("[", &e.elements);
                r.append("]");
                r
            },
            Expression::SetLiteral(e) => {
                let mut r = Expression::list_text("{", &e.elements);
                r.append("}");
                r
            },
            Expression::ListComprehension(e) => {
                let mut r = "[ ".to_owned();
                r.append((*e.element).text().as_str());
                r.append(" for ");
                r.append(e.variable.name.as_str());
                r.append(" in ");
                r.append((*e.value).text().as_str());
                r.append(" ]");
                r
            },
            Expression::SetComprehension(e) => {
                let mut r = "{ ".to_owned();
                r.append((*e.element).text().as_str());
                r.append(" for ");
                r.append(e.variable.name.as_str());
                r.append(" in ");
                r.append((*e.value).text().as_str());
                r.append(" }");
                r
            },
            Expression::Capture(e) => {
                let mut r = "@".to_owned();
                r.append(e.name.as_str());
                r
            },
            Expression::Variable(e) => e.text(),
            Expression::Call(e) => {
                let mut start = "(".to_owned();
                start.append(e.function.as_str());
                let mut r = Expression::terms_text(start, &e.parameters);
                r.append(")");
                r
            },
            Expression::RegexCapture(e) => {
                let mut r = "$".to_owned();
                r.append(decimal(e.match_index as u128).as_str());
                r
            },
        }
    }

    fn list_text(start: &str, elements: &Vec<Expression>) -> (r: String)
        ensures
            r@ == Expression::list_shown(start@, elements@, elements.len() as int),
        decreases elements@, 0int,
    {
        let mut r = start.to_owned();
        let mut i: usize = 0;
        while i < elements.len()
            invariant
                i <= elements.len(),
                r@ == Expression::list_shown(start@, elements@, i as int),
            decreases elements.len() - i,
        {
            if i > 0 {
                r.append(", ");
            }
            r.append(elements[i].text().as_str());
            i += 1;
        }
        r
    }

    fn terms_text(start: String, terms: &Vec<Expression>) -> (r: String)
        ensures
            r@ == Expression::terms_shown(start@, terms@, terms.len() as int),
        decreases terms@, 0int,
    {
        let mut r = start;
        let mut i: usize = 0;
        while i < terms.len()
            invariant
                i <= terms.len(),
                r@ == Expression::terms_shown(start@, terms@, i as int),
            decreases terms.len() - i,
        {
            r.append(" ");
            r.append(terms[i].text().as_str());
            i += 1;
        }
        r
    }
}

impl Variable {
    pub open spec fn shown(self) -> Seq<char>
        decreases self, 0int,
    {
        match self {
            Variable::Scoped(v) => v.scope.shown() + "."@ + v.name@,
            Variable::Unscoped(v) => v.name@,
        }
    }

    pub fn text(&self) -> (r: String)
        ensures
            r@ == self.shown(),
        decreases self, 0int,
    {
        match self {
            Variable::Scoped(v) => {
                let mut r = (*v.scope).text();
                r.append(".");
                r.append(v.name.as_str());
                r
            },
            Variable::Unscoped(v) => v.name.name.clone(),
        }
    }

    pub open spec fn at(self) -> Location {
        match self {
            Variable::Scoped(v) => v.location,
            Variable::Unscoped(v) => v.location,
        }
    }

    pub fn location(&self) -> (r: Location)
        ensures
            r == self.at(),
    {
        match self {
            Variable::Scoped(v) => v.location,
            Variable::Unscoped(v) => v.location,
        }
    }
}

impl ScopedVariable {
    pub open spec fn shown(self) -> Seq<char> {
        self.scope.shown() + "."@ + self.name@
    }

    pub fn text(&self) -> (r: String)
        ensures
            r@ == self.shown(),
    {
        let mut r = (*self.scope).text();
        r.append(".");
        r.append(self.name.as_str());
        r
    }
}

impl Attribute {
    pub open spec fn shown(self) -> Seq<char> {
        self.name@ + " = "@ + self.value.shown()
    }

    pub fn text(&self) -> (r: String)
        ensures
            r@ == self.shown(),
    {
        let mut r = self.name.name.clone();
        r.append(" = ");
        r.append(self.value.text().as_str());
        r
    }

    /// `start`, and after it the first `n` of the attributes, each after a space.
    pub open spec fn all_shown(start: Seq<char>, attributes: Seq<Attribute>, n: int) -> Seq<char>
        decreases n,
    {
        if n <= 0 {
            start
        } else {
            Attribute::all_shown(start, attributes, n - 1) + " "@ + attributes[n - 1].shown()
        }
    }

    fn all_text(start: String, attributes: &Vec<Attribute>) -> (r: String)
        ensures
            r@ == Attribute::all_shown(start@, attributes@, attributes.len() as int),
    {
        let mut r = start;
        let mut i: usize = 0;
        while i < attributes.len()
            invariant
                i <= attributes.len(),
                r@ == Attribute::all_shown(start@, attributes@, i as int),
            decreases attributes.len() - i,
        {
            r.append(" ");
            r.append(attributes[i].text().as_str());
            i += 1;
        }
        r
    }
}

impl Condition {
    pub open spec fn shown(self) -> Seq<char> {
        match self {
            Condition::IsSome { value, .. } => "some "@ + value.shown(),
            Condition::IsNone { value, .. } => "none "@ + value.shown(),
            Condition::Bool { value, .. } => value.shown(),
        }
    }

    pub fn text(&self) -> (r: String)
        ensures
            r@ == self.shown(),
    {
        match self {
            Condition::IsSome { value, .. } => {
                let mut r = "some ".to_owned();
                r.append(value.text().as_str());
                r
            },
            Condition::IsNone { value, .. } => {
                let mut r = "none ".to_owned();
                r.append(value.text().as_str());
                r
            },
            Condition::Bool { value, .. } => value.text(),
        }
    }

    /// `start`, and after it the first `n` of the conditions, separated by commas.
    pub open spec fn all_shown(start: Seq<char>, conditions: Seq<Condition>, n: int) -> Seq<char>
        decreases n,
    {
        if n <= 0 {
            start
        } else if n == 1 {
            start + conditions[0].shown()
        } else {
            Condition::all_shown(start, conditions, n - 1) + ", "@ + conditions[n - 1].shown()
        }
    }

    fn all_text(start: String, conditions: &Vec<Condition>) -> (r: String)
        ensures
            r@ == Condition::all_shown(start@, conditions@, conditions.len() as int),
    {
        let mut r = start;
        let mut i: usize = 0;
        while i < conditions.len()
            invariant
                i <= conditions.len(),
                r@ == Condition::all_shown(start@, conditions@, i as int),
            decreases conditions.len() - i,
        {
            if i > 0 {
                r.append(", ");
            }
            r.append(conditions[i].text().as_str());
            i += 1;
        }
        r
    }
}

impl If {
    /// The first `n` arms. The statements of an arm are left out, and an arm without conditions
    /// that is not the first is an alternative to all that come before it.
    pub open spec fn arms_shown(arms: Seq<IfArm>, n: int) -> Seq<char>
        decreases n,
    {
        if n <= 0 {
            Seq::empty()
        } else {
            let conditions = arms[n - 1].conditions@;
            let before = If::arms_shown(arms, n - 1);
            let start = if n == 1 {
                Condition::all_shown(before + "if "@, conditions, conditions.len() as int)
            } else if conditions.len() == 0 {
                before + " else"@
            } else {
                Condition::all_shown(before + " elif "@, conditions, conditions.len() as int)
            };
            start + " { ... }"@
        }
    }

    fn arms_text(&self) -> (r: String)
        ensures
            r@ == If::arms_shown(self.arms@, self.arms.len() as int),
    {
        let mut r = String::new();
        let mut i: usize = 0;
        while i < self.arms.len()
            invariant
                i <= self.arms.len(),
                r@ == If::arms_shown(self.arms@, i as int),
            decreases self.arms.len() - i,
        {
            let arm = &self.arms[i];
            if i == 0 {
                r.append("if ");
                r = Condition::all_text(r, &arm.conditions);
            } else if arm.conditions.len() == 0 {
                r.append(" else");
            } else {
                r.append(" elif ");
                r = Condition::all_text(r, &arm.conditions);
            }
            r.append(" { ... }");
            i += 1;
        }
        r
    }
}

impl Print {
    /// `start`, and after it the first `n` of the expressions, each after a space and before a
    /// comma.
    pub open spec fn values_shown(values: Seq<Expression>, n: int) -> Seq<char>
        decreases n,
    {
        if n <= 0 {
            "print"@
        } else {
            Print::values_shown(values, n - 1) + " "@ + values[n - 1].shown() + ","@
        }
    }

    fn values_text(&self) -> (r: String)
        ensures
            r@ == Print::values_shown(self.values@, self.values.len() as int),
    {
        let mut r = "print".to_owned();
        let mut i: usize = 0;
        while i < self.values.len()
            invariant
                i <= self.values.len(),
                r@ == Print::values_shown(self.values@, i as int),
            decreases self.values.len() - i,
        {
            r.append(" ");
            r.append(self.values[i].text().as_str());
            r.append(",");
            i += 1;
        }
        r
    }
}

impl Statement {
    pub open spec fn at(self) -> Location {
        match self {
            Statement::DeclareImmutable(s) => s.location,
            Statement::DeclareMutable(s) => s.location,
            Statement::Assign(s) => s.location,
            Statement::CreateGraphNode(s) => s.location,
            Statement::AddGraphNodeAttribute(s) => s.location,
            Statement::CreateEdge(s) => s.location,
            Statement::AddEdgeAttribute(s) => s.location,
            Statement::Scan(s) => s.location,
            Statement::Print(s) => s.location,
            Statement::If(s) => s.location,
            Statement::ForIn(s) => s.location,
        }
    }

    pub fn location(&self) -> (r: Location)
        ensures
            r == self.at(),
    {
        match self {
            Statement::DeclareImmutable(s) => s.location,
            Statement::DeclareMutable(s) => s.location,
            Statement::Assign(s) => s.location,
            Statement::CreateGraphNode(s) => s.location,
            Statement::AddGraphNodeAttribute(s) => s.location,
            Statement::CreateEdge(s) => s.location,
            Statement::AddEdgeAttribute(s) => s.location,
            Statement::Scan(s) => s.location,
            Statement::Print(s) => s.location,
            Statement::If(s) => s.location,
            Statement::ForIn(s) => s.location,
        }
    }

    /// A statement is shown as it is written, without the statements inside it, and with its
    /// location.
    pub open spec fn shown(self) -> Seq<char> {
        let start = match self {
            Statement::DeclareImmutable(s) => "let "@ + s.variable.shown() + " = "@
                + s.value.shown(),
            Statement::DeclareMutable(s) => "var "@ + s.variable.shown() + " = "@ + s.value.shown(),
            Statement::Assign(s) => "set "@ + s.variable.shown() + " = "@ + s.value.shown(),
            Statement::CreateGraphNode(s) => "node "@ + s.node.shown(),
            Statement::AddGraphNodeAttribute(s) => Attribute::all_shown(
                "attr ("@ + s.node.shown() + ")"@,
                s.attributes@,
                s.attributes@.len() as int,
            ),
            Statement::CreateEdge(s) => "edge "@ + s.source.shown() + " -> "@ + s.sink.shown(),
            Statement::AddEdgeAttribute(s) => Attribute::all_shown(
                "attr ("@ + s.source.shown() + " -> "@ + s.sink.shown() + ")"@,
                s.attributes@,
                s.attributes@.len() as int,
            ),
            Statement::Scan(s) => "scan "@ + s.value.shown() + " { ... }"@,
            Statement::Print(s) => Print::values_shown(s.values@, s.values@.len() as int),
            Statement::If(s) => If::arms_shown(s.arms@, s.arms@.len() as int),
            Statement::ForIn(s) => "for "@ + s.variable.name@ + " in "@ + s.value.shown()
                + " { ... }"@,
        };
        start + " at "@ + self.at().shown()
    }

    pub fn text(&self) -> (r: String)
        ensures
            r@ == self.shown(),
    {
        let mut r = match self {
            Statement::DeclareImmutable(s) => {
                let mut r = "let ".to_owned();
                r.append(s.variable.text().as_str());
                r.append(" = ");
                r.append(s.value.text().as_str());
                r
            },
            Statement::DeclareMutable(s) => {
                let mut r = "var ".to_owned();
                r.append(s.variable.text().as_str());
                r.append(" = ");
                r.append(s.value.text().as_str());
                r
            },
            Statement::Assign(s) => {
                let mut r = "set ".to_owned();
                r.append(s.variable.text().as_str());
                r.append(" = ");
                r.append(s.value.text().as_str());
                r
            },
            Statement::CreateGraphNode(s) => {
                let mut r = "node ".to_owned();
                r.append(s.node.text().as_str());
                r
            },
            Statement::AddGraphNodeAttribute(s) => {
                let mut start = "attr (".to_owned();
                start.append(s.node.text().as_str());
                start.append(")");
                Attribute::all_text(start, &s.attributes)
            },
            Statement::CreateEdge(s) => {
                let mut r = "edge ".to_owned();
                r.append(s.source.text().as_str());
                r.append(" -> ");
                r.append(s.sink.text().as_str());
                r
            },
            Statement::AddEdgeAttribute(s) => {
                let mut start = "attr (".to_owned();
                start.append(s.source.text().as_str());
                start.append(" -> ");
                start.append(s.sink.text().as_str());
                start.append(")");
                Attribute::all_text(start, &s.attributes)
            },
            Statement::Scan(s) => {
                let mut r = "scan ".to_owned();
                r.append(s.value.text().as_str());
                r.append(" { ... }");
                r
            },
            Statement::Print(s) => s.values_text(),
            Statement::If(s) => s.arms_text(),
            Statement::ForIn(s) => {
                let mut r = "for ".to_owned();
                r.append(s.variable.name.as_str());
                r.append(" in ");
                r.append(s.value.text().as_str());
                r.append(" { ... }");
                r
            },
        };
        r.append(" at ");
        r.append(self.location().text().as_str());
        r
    }
}

impl AttributeShorthands {
    /// The position of the last of the first `n` shorthands that is called `name`, or -1.
    pub open spec fn find(list: Seq<AttributeShorthand>, name: Seq<char>, n: int) -> int
        decreases n,
    {
        if n <= 0 {
            -1
        } else if list[n - 1].name@ == name {
            n - 1
        } else {
            AttributeShorthands::find(list, name, n - 1)
        }
    }

    /// The position of the shorthand called `name`, or -1 if there is none.
    pub open spec fn position(list: Seq<AttributeShorthand>, name: Seq<char>) -> int {
        AttributeShorthands::find(list, name, list.len() as int)
    }

    pub proof fn lemma_find(list: Seq<AttributeShorthand>, name: Seq<char>, n: int)
        requires
            n <= list.len(),
        ensures
            -1 <= AttributeShorthands::find(list, name, n),
            AttributeShorthands::find(list, name, n) >= 0 ==> AttributeShorthands::find(
                list,
                name,
                n,
            ) < n && list[AttributeShorthands::find(list, name, n)].name@ == name,
        decreases n,
    {
        if n > 0 {
            AttributeShorthands::lemma_find(list, name, n - 1);
        }
    }

    /// The position of the shorthand called `name`, if there is one.
    pub fn position_of(&self, name: &Identifier) -> (r: Option<usize>)
        ensures
            (match r {
                Some(p) => p as int,
                None => -1,
            }) == AttributeShorthands::position(self.list@, name@),
            r matches Some(p) ==> p < self.list.len() && self.list@[p as int].name@ == name@,
    {
        let mut n: usize = self.list.len();
        while n > 0
            invariant
                n <= self.list.len(),
                AttributeShorthands::position(self.list@, name@) == AttributeShorthands::find(
                    self.list@,
                    name@,
                    n as int,
                ),
            decreases n,
        {
            n -= 1;
            if self.list[n].name.same(name) {
                return Some(n);
            }
        }
        None
    }

    /// The shorthand called `name`, if there is one.
    pub fn get(&self, name: &Identifier) -> (r: Option<&AttributeShorthand>)
        ensures
            r is Some <==> AttributeShorthands::position(self.list@, name@) >= 0,
            r matches Some(shorthand) ==> 0 <= AttributeShorthands::position(self.list@, name@)
                < self.list.len() && *shorthand == self.list@[AttributeShorthands::position(
                self.list@,
                name@,
            )],
    {
        match self.position_of(name) {
            None => None,
            Some(p) => Some(&self.list[p]),
        }
    }
}

} // verus!
