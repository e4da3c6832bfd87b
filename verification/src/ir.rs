use vstd::prelude::*;

verus! {

/// An argument of a call, as the C front end reads it.
pub enum Expression {
    Integer(i64),
    Identifier(String),
    String(String),
}

/// A statement of a function body.
pub enum Statement {
    Call { name: String, arguments: Vec<Expression> },
    Variable { name: String, value: Expression },
    Return,
}

/// A function: its name and the statements of its body.
pub struct Function {
    pub name: String,
    pub body: Vec<Statement>,
}

/// A parsed translation unit: its functions in source order.
pub struct Program {
    pub functions: Vec<Function>,
}

/// The mathematical value of an argument, shared by every program form.
pub enum ExprModel {
    Integer(i64),
    Identifier(Seq<char>),
    Text(Seq<char>),
}

/// The mathematical value of a statement.
pub enum StmtModel {
    Call { name: Seq<char>, arguments: Seq<ExprModel> },
    Variable { name: Seq<char>, value: ExprModel },
    Return,
}

/// The mathematical value of a function.
pub struct FunctionModel {
    pub name: Seq<char>,
    pub body: Seq<StmtModel>,
}

/// The mathematical value of a program: its functions in order.
pub struct ProgramModel {
    pub functions: Seq<FunctionModel>,
}

impl View for Expression {
    type V = ExprModel;

    open spec fn view(&self) -> ExprModel {
        match self {
            Expression::Integer(v) => ExprModel::Integer(*v),
            Expression::Identifier(n) => ExprModel::Identifier(n@),
            Expression::String(s) => ExprModel::Text(s@),
        }
    }
}

/// The values of a sequence of arguments.
pub open spec fn exprs_view(v: Seq<Expression>) -> Seq<ExprModel> {
    v.map_values(|e: Expression| e@)
}

impl View for Statement {
    type V = StmtModel;

    open spec fn view(&self) -> StmtModel {
        match self {
            Statement::Call { name, arguments } => StmtModel::Call {
                name: name@,
                arguments: exprs_view(arguments@),
            },
            Statement::Variable { name, value } => StmtModel::Variable { name: name@, value: value@ },
            Statement::Return => StmtModel::Return,
        }
    }
}

/// The values of a sequence of statements.
pub open spec fn stmts_view(v: Seq<Statement>) -> Seq<StmtModel> {
    v.map_values(|s: Statement| s@)
}

impl View for Function {
    type V = FunctionModel;

    open spec fn view(&self) -> FunctionModel {
        FunctionModel { name: self.name@, body: stmts_view(self.body@) }
    }
}

/// The values of a sequence of functions.
pub open spec fn functions_view(v: Seq<Function>) -> Seq<FunctionModel> {
    v.map_values(|f: Function| f@)
}

impl View for Program {
    type V = ProgramModel;

    open spec fn view(&self) -> ProgramModel {
        ProgramModel { functions: functions_view(self.functions@) }
    }
}

/// The index of the first function named `main`, if there is one.
pub open spec fn main_index(p: ProgramModel) -> Option<int> {
    if exists|i: int| 0 <= i < p.functions.len() && p.functions[i].name == "main"@ {
        let i = choose|i: int|
            0 <= i < p.functions.len() && p.functions[i].name == "main"@ && forall|j: int|
                0 <= j < i ==> p.functions[j].name != "main"@;
        Some(i)
    } else {
        None
    }
}

/// The statements of `body` that run: those before the first `return`.
pub open spec fn executed_prefix(body: Seq<StmtModel>) -> Seq<StmtModel>
    decreases body.len(),
{
    if body.len() == 0 {
        body
    } else if body[0] is Return {
        Seq::<StmtModel>::empty()
    } else {
        seq![body[0]] + executed_prefix(body.drop_first())
    }
}

/// The statements of `main` that a runtime executes: nothing when there is no
/// `main`, else those of the first `main` before its first `return`.
pub open spec fn executed_statements(p: ProgramModel) -> Seq<StmtModel> {
    match main_index(p) {
        Some(i) => executed_prefix(p.functions[i].body),
        None => Seq::<StmtModel>::empty(),
    }
}

/// The index of the first function named `main`.
pub fn find_main(program: &Program) -> (r: Option<usize>)
    ensures
        match r {
            Some(m) => m < program.functions@.len() && main_index(program@) == Some(m as int),
            None => main_index(program@) is None,
        },
{
    let ghost p = program@;
    let mut k: usize = 0;
    let mut found: Option<usize> = None;
    while k < program.functions.len()
        invariant_except_break
            found is None,
        invariant
            k <= program.functions@.len(),
            p == program@,
            forall|j: int| 0 <= j < k ==> p.functions[j].name != "main"@,
        ensures
            match found {
                Some(m) => m < program.functions@.len() && p.functions[m as int].name == "main"@
                    && forall|j: int| 0 <= j < m ==> p.functions[j].name != "main"@,
                None => forall|j: int| 0 <= j < p.functions.len() ==> p.functions[j].name != "main"@,
            },
        decreases program.functions@.len() - k,
    {
        if crate::text::same_text(program.functions[k].name.as_str(), "main") {
            found = Some(k);
            break;
        }
        k = k + 1;
    }
    match found {
        Some(m) => {
            assert(main_index(p) == Some(m as int)) by {
                assert(p.functions[m as int].name == "main"@);
                let c = choose|i: int|
                    0 <= i < p.functions.len() && p.functions[i].name == "main"@ && forall|j: int|
                        0 <= j < i ==> p.functions[j].name != "main"@;
                assert(0 <= c < p.functions.len() && p.functions[c].name == "main"@ && forall|j: int|
                    0 <= j < c ==> p.functions[j].name != "main"@);
                assert(c == m);
            }
        },
        None => {},
    }
    found
}

/// A copy of a string with the same characters.
pub fn copy_string(s: &String) -> (r: String)
    ensures
        r@ == s@,
{
    s.clone()
}

impl Expression {
    /// A copy of this argument.
    pub fn copy(&self) -> (r: Expression)
        ensures
            r@ == self@,
    {
        match self {
            Expression::Integer(v) => Expression::Integer(*v),
            Expression::Identifier(n) => Expression::Identifier(copy_string(n)),
            Expression::String(s) => Expression::String(copy_string(s)),
        }
    }
}

} // verus!
