use vstd::prelude::*;
use crate::ir::{ExprModel, FunctionModel, ProgramModel, StmtModel, copy_string};

verus! {

/// An argument of a call, as the editor extension hands it over.
pub enum Expression {
    Integer { value: i64 },
    Identifier { name: String },
    String { value: String },
}

/// A statement of a function body.
pub enum Statement {
    Call { name: String, arguments: Vec<Expression> },
    Variable { name: String, value: Expression },
    Return,
}

/// A function: its name and the statements of its body.
pub struct Function {
    pub name: String,
    pub body: Vec<Statement>,
}

/// A program: its functions in source order.
pub struct Program {
    pub functions: Vec<Function>,
}

impl View for Expression {
    type V = ExprModel;

    open spec fn view(&self) -> ExprModel {
        match self {
            Expression::Integer { value } => ExprModel::Integer(*value),
            Expression::Identifier { name } => ExprModel::Identifier(name@),
            Expression::String { value } => ExprModel::Text(value@),
        }
    }
}

/// The values of a sequence of arguments.
pub open spec fn exprs_view(v: Seq<Expression>) -> Seq<ExprModel> {
    v.map_values(|e: Expression| e@)
}

impl View for Statement {
    type V = StmtModel;

    open spec fn view(&self) -> StmtModel {
        match self {
            Statement::Call { name, arguments } => StmtModel::Call {
                name: name@,
                arguments: exprs_view(arguments@),
            },
            Statement::Variable { name, value } => StmtModel::Variable { name: name@, value: value@ },
            Statement::Return => StmtModel::Return,
        }
    }
}

/// The values of a sequence of statements.
pub open spec fn stmts_view(v: Seq<Statement>) -> Seq<StmtModel> {
    v.map_values(|s: Statement| s@)
}

impl View for Function {
    type V = FunctionModel;

    open spec fn view(&self) -> FunctionModel {
        FunctionModel { name: self.name@, body: stmts_view(self.body@) }
    }
}

impl View for Program {
    type V = ProgramModel;

    open spec fn view(&self) -> ProgramModel {
        ProgramModel { functions: self.functions@.map_values(|f: Function| f@) }
    }
}

impl Expression {
    /// A copy of this argument.
    pub fn copy(&self) -> (r: Expression)
        ensures
            r@ == self@,
    {
        match self {
            Expression::Integer { value } => Expression::Integer { value: *value },
            Expression::Identifier { name } => Expression::Identifier { name: copy_string(name) },
            Expression::String { value } => Expression::String { value: copy_string(value) },
        }
    }
}

impl Expression {
    /// The same argument as the front end read it.
    pub fn from_parsed(e: &crate::ir::Expression) -> (r: Expression)
        ensures
            r@ == e@,
    {
        match e {
            crate::ir::Expression::Integer(v) => Expression::Integer { value: *v },
            crate::ir::Expression::Identifier(n) => Expression::Identifier { name: copy_string(n) },
            crate::ir::Expression::String(s) => Expression::String { value: copy_string(s) },
        }
    }
}

impl Statement {
    /// The same statement as the front end read it.
    pub fn from_parsed(s: &crate::ir::Statement) -> (r: Statement)
        ensures
            r@ == s@,
    {
        match s {
            crate::ir::Statement::Call { name, arguments } => {
                let mut args: Vec<Expression> = Vec::new();
                let mut i: usize = 0;
                while i < arguments.len()
                    invariant
                        i <= arguments@.len(),
                        exprs_view(args@) == crate::ir::exprs_view(arguments@).take(i as int),
                    decreases arguments@.len() - i,
                {
                    let e = Expression::from_parsed(&arguments[i]);
                    let ghost before = exprs_view(args@);
                    assert(e@ == crate::ir::exprs_view(arguments@)[i as int]);
                    let ghost ev = e@;
                    args.push(e);
                    assert(exprs_view(args@) =~= before.push(ev));
                    i = i + 1;
                    assert(exprs_view(args@) =~= crate::ir::exprs_view(arguments@).take(i as int));
                }
                assert(crate::ir::exprs_view(arguments@).take(i as int) =~= crate::ir::exprs_view(arguments@));
                Statement::Call { name: copy_string(name), arguments: args }
            },
            crate::ir::Statement::Variable { name, value } => Statement::Variable {
                name: copy_string(name),
                value: Expression::from_parsed(value),
            },
            crate::ir::Statement::Return => Statement::Return,
        }
    }
}

impl Function {
    /// The same function as the front end read it.
    pub fn from_parsed(f: &crate::ir::Function) -> (r: Function)
        ensures
            r@ == f@,
    {
        let mut body: Vec<Statement> = Vec::new();
        let mut i: usize = 0;
        while i < f.body.len()
            invariant
                i <= f.body@.len(),
                stmts_view(body@) == crate::ir::stmts_view(f.body@).take(i as int),
            decreases f.body@.len() - i,
        {
            let s = Statement::from_parsed(&f.body[i]);
            let ghost before = stmts_view(body@);
            assert(s@ == crate::ir::stmts_view(f.body@)[i as int]);
            let ghost sv = s@;
            body.push(s);
            assert(stmts_view(body@) =~= before.push(sv));
            i = i + 1;
            assert(stmts_view(body@) =~= crate::ir::stmts_view(f.body@).take(i as int));
        }
        assert(crate::ir::stmts_view(f.body@).take(i as int) =~= crate::ir::stmts_view(f.body@));
        Function { name: copy_string(&f.name), body }
    }
}

impl Program {
    /// The same program as the front end read it.
    pub fn from_parsed(p: &crate::ir::Program) -> (r: Program)
        ensures
            r@ == p@,
    {
        let mut functions: Vec<Function> = Vec::new();
        let mut i: usize = 0;
        while i < p.functions.len()
            invariant
                i <= p.functions@.len(),
                functions@.map_values(|f: Function| f@) == crate::ir::functions_view(p.functions@).take(i as int),
            decreases p.functions@.len() - i,
        {
            let f = Function::from_parsed(&p.functions[i]);
            let ghost before = functions@.map_values(|f: Function| f@);
            assert(f@ == crate::ir::functions_view(p.functions@)[i as int]);
            let ghost fv = f@;
            functions.push(f);
            assert(functions@.map_values(|f: Function| f@) =~= before.push(fv));
            i = i + 1;
            assert(functions@.map_values(|f: Function| f@) =~= crate::ir::functions_view(p.functions@).take(i as int));
        }
        assert(crate::ir::functions_view(p.functions@).take(i as int) =~= crate::ir::functions_view(p.functions@));
        Program { functions }
    }
}

} // verus!
