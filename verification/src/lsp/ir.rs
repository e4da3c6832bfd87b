use vstd::prelude::*;
use crate::ir::{ExprModel, FunctionModel, ProgramModel, StmtModel};

verus! {

/// An argument of a call, in the form the language server handles.
pub enum Expression {
    Integer(i64),
    Identifier(String),
    String(String),
}

/// A statement of a function body: a call, or a return.
pub enum Statement {
    Call { name: String, arguments: Vec<Expression> },
    Return,
}

/// A function: its name and the statements of its body.
pub struct Function {
    pub name: String,
    pub body: Vec<Statement>,
}

/// A program: its functions in source order.
pub struct Program {
    pub functions: Vec<Function>,
}

impl View for Expression {
    type V = ExprModel;

    open spec fn view(&self) -> ExprModel {
        match self {
            Expression::Integer(v) => ExprModel::Integer(*v),
            Expression::Identifier(n) => ExprModel::Identifier(n@),
            Expression::String(s) => ExprModel::Text(s@),
        }
    }
}

impl View for Statement {
    type V = StmtModel;

    open spec fn view(&self) -> StmtModel {
        match self {
            Statement::Call { name, arguments } => StmtModel::Call {
                name: name@,
                arguments: arguments@.map_values(|e: Expression| e@),
            },
            Statement::Return => StmtModel::Return,
        }
    }
}

impl View for Function {
    type V = FunctionModel;

    open spec fn view(&self) -> FunctionModel {
        FunctionModel { name: self.name@, body: self.body@.map_values(|s: Statement| s@) }
    }
}

impl View for Program {
    type V = ProgramModel;

    open spec fn view(&self) -> ProgramModel {
        ProgramModel { functions: self.functions@.map_values(|f: Function| f@) }
    }
}

} // verus!
