use vstd::prelude::*;
use vstd::utf8::{decode_utf8, encode_utf8, valid_utf8};
use crate::ir::{Expression, ExprModel, Function, FunctionModel, Program, ProgramModel, Statement, StmtModel, exprs_view, functions_view, stmts_view};
use crate::syntax::{
    SourceLanguage,
    SyntaxNode,
    TreeError,
    describes,
    grammar_accepted,
    lemma_describes_same,
    lemma_same_trees_index,
    node_wf,
    parsed_entries,
    same_tree,
    same_trees,
    syntax_tree,
};
use crate::text::{IntErrorKind, chars_of, literal_value, literal_value_exec, parse_i64, parse_int, same_text, string_of};

verus! {

/// Why a source file could not be turned into a program.
#[derive(Debug, Clone, Copy, PartialEq, Eq, Structural)]
pub enum ParseError {
    /// The file's extension names no supported language.
    UnsupportedSource,
    /// The parser did not accept the grammar.
    LanguageSetup,
    /// The parser produced no tree.
    ParseFailed,
    /// A function definition has no declarator.
    MissingDeclarator,
    /// A function declarator holds no identifier.
    MissingName,
    /// A function definition has no body.
    MissingBody,
    /// The text of a node is not valid UTF-8.
    InvalidUtf8,
    /// A number literal is not a decimal `i64`.
    InvalidInteger(IntErrorKind),
}

/// The language a source file is written in, by its extension: `c` for C,
/// `cpp`, `cc` and `cxx` for C++.
pub open spec fn language_of(extension: Option<Seq<char>>) -> Option<SourceLanguage> {
    match extension {
        Some(e) => if e == "c"@ {
            Some(SourceLanguage::C)
        } else if e == "cpp"@ || e == "cc"@ || e == "cxx"@ {
            Some(SourceLanguage::Cpp)
        } else {
            None
        },
        None => None,
    }
}

/// The source text a node covers, when its byte range lies within `src` and
/// holds valid UTF-8.
pub open spec fn node_text(n: SyntaxNode, src: Seq<u8>) -> Option<Seq<char>> {
    if n.start <= n.end <= src.len() {
        let b = src.subrange(n.start as int, n.end as int);
        if valid_utf8(b) { Some(decode_utf8(b)) } else { None }
    } else {
        None
    }
}

/// The index of the first node of `cs` that fills the field `f`, or -1.
pub open spec fn field_index(cs: Seq<SyntaxNode>, f: Seq<char>) -> int
    decreases cs.len(),
{
    if cs.len() == 0 {
        -1
    } else if cs[0].field matches Some(name) && name@ == f {
        0
    } else {
        let i = field_index(cs.drop_first(), f);
        if i < 0 { -1 } else { i + 1 }
    }
}

/// The index of the first named node of `cs`, or -1.
pub open spec fn named_index(cs: Seq<SyntaxNode>) -> int
    decreases cs.len(),
{
    if cs.len() == 0 {
        -1
    } else if cs[0].named {
        0
    } else {
        let i = named_index(cs.drop_first());
        if i < 0 { -1 } else { i + 1 }
    }
}

/// The name a function declarator declares: the text of the first
/// `identifier` met in a depth-first walk (`None` when its text is not valid
/// UTF-8, or when there is none).
pub open spec fn find_name(n: SyntaxNode, src: Seq<u8>) -> Option<Seq<char>>
    decreases n,
{
    if n.kind@ == "identifier"@ {
        node_text(n, src)
    } else {
        find_name_in(n.children@, src)
    }
}

/// The first name that `find_name` finds among `cs`.
pub open spec fn find_name_in(cs: Seq<SyntaxNode>, src: Seq<u8>) -> Option<Seq<char>>
    decreases cs,
{
    if cs.len() == 0 {
        None
    } else {
        match find_name(cs[0], src) {
            Some(x) => Some(x),
            None => find_name_in(cs.drop_first(), src),
        }
    }
}

/// `a` in front of the sequence that `r` holds; `r`'s error when it is one.
pub open spec fn prepend<T>(a: Seq<T>, r: Result<Seq<T>, ParseError>) -> Result<Seq<T>, ParseError> {
    match r {
        Ok(x) => Ok(a + x),
        Err(e) => Err(e),
    }
}

/// The value of a call argument node: a string literal's value, an
/// identifier, or a decimal number; `None` for any other kind of node.
pub open spec fn argument_of(c: SyntaxNode, src: Seq<u8>) -> Result<Option<ExprModel>, ParseError> {
    if c.kind@ == "string_literal"@ {
        match node_text(c, src) {
            Some(t) => Ok(Some(ExprModel::Text(literal_value(t)))),
            None => Err(ParseError::InvalidUtf8),
        }
    } else if c.kind@ == "identifier"@ {
        match node_text(c, src) {
            Some(t) => Ok(Some(ExprModel::Identifier(t))),
            None => Err(ParseError::InvalidUtf8),
        }
    } else if c.kind@ == "number_literal"@ {
        match node_text(c, src) {
            Some(t) => match parse_int(t) {
                Ok(v) => Ok(Some(ExprModel::Integer(v as i64))),
                Err(e) => Err(ParseError::InvalidInteger(e)),
            },
            None => Err(ParseError::InvalidUtf8),
        }
    } else {
        Ok(None)
    }
}

/// The arguments read from the named nodes among `cs`, in order; the first
/// error when there is one.
pub open spec fn arguments_in(cs: Seq<SyntaxNode>, src: Seq<u8>) -> Result<Seq<ExprModel>, ParseError>
    decreases cs.len(),
{
    if cs.len() == 0 {
        Ok(Seq::empty())
    } else if !cs[0].named {
        arguments_in(cs.drop_first(), src)
    } else {
        match argument_of(cs[0], src) {
            Err(e) => Err(e),
            Ok(None) => arguments_in(cs.drop_first(), src),
            Ok(Some(a)) => prepend(seq![a], arguments_in(cs.drop_first(), src)),
        }
    }
}

/// The statement a node of a function body stands for: a call when it is an
/// expression statement whose first named child is a call (its arguments are
/// those of the `arguments` field), `return` for a return statement; `None`
/// for anything else.
pub open spec fn statement_of(c: SyntaxNode, src: Seq<u8>) -> Result<Option<StmtModel>, ParseError> {
    if c.kind@ == "expression_statement"@ {
        let k = named_index(c.children@);
        if k < 0 {
            Ok(None)
        } else {
            let call = c.children@[k];
            if call.kind@ != "call_expression"@ {
                Ok(None)
            } else {
                let fi = field_index(call.children@, "function"@);
                if fi < 0 {
                    Ok(None)
                } else {
                    match node_text(call.children@[fi], src) {
                        None => Err(ParseError::InvalidUtf8),
                        Some(name) => {
                            let ai = field_index(call.children@, "arguments"@);
                            let args = if ai < 0 {
                                Ok(Seq::<ExprModel>::empty())
                            } else {
                                arguments_in(call.children@[ai].children@, src)
                            };
                            match args {
                                Err(e) => Err(e),
                                Ok(a) => Ok(Some(StmtModel::Call { name, arguments: a })),
                            }
                        },
                    }
                }
            }
        }
    } else if c.kind@ == "return_statement"@ {
        Ok(Some(StmtModel::Return))
    } else {
        Ok(None)
    }
}

/// The statements read from the named nodes among `cs`, in order; the first
/// error when there is one.
pub open spec fn statements_in(cs: Seq<SyntaxNode>, src: Seq<u8>) -> Result<Seq<StmtModel>, ParseError>
    decreases cs.len(),
{
    if cs.len() == 0 {
        Ok(Seq::empty())
    } else if !cs[0].named {
        statements_in(cs.drop_first(), src)
    } else {
        match statement_of(cs[0], src) {
            Err(e) => Err(e),
            Ok(None) => statements_in(cs.drop_first(), src),
            Ok(Some(s)) => prepend(seq![s], statements_in(cs.drop_first(), src)),
        }
    }
}

/// The functions defined in the subtree `n`, in source order: a function
/// definition gives one function (named by its declarator, with the
/// statements of its body) and is not searched further; any other node gives
/// the functions of its children. The first error when there is one.
pub open spec fn functions_of(n: SyntaxNode, src: Seq<u8>) -> Result<Seq<FunctionModel>, ParseError>
    decreases n,
{
    if n.kind@ == "function_definition"@ {
        let d = field_index(n.children@, "declarator"@);
        if d < 0 {
            Err(ParseError::MissingDeclarator)
        } else {
            match find_name(n.children@[d], src) {
                None => Err(ParseError::MissingName),
                Some(name) => {
                    let b = field_index(n.children@, "body"@);
                    if b < 0 {
                        Err(ParseError::MissingBody)
                    } else {
                        match statements_in(n.children@[b].children@, src) {
                            Err(e) => Err(e),
                            Ok(body) => Ok(seq![FunctionModel { name, body }]),
                        }
                    }
                },
            }
        }
    } else {
        functions_in(n.children@, src)
    }
}

/// The functions defined in the trees `cs`, in order.
pub open spec fn functions_in(cs: Seq<SyntaxNode>, src: Seq<u8>) -> Result<Seq<FunctionModel>, ParseError>
    decreases cs,
{
    if cs.len() == 0 {
        Ok(Seq::empty())
    } else {
        match functions_of(cs[0], src) {
            Err(e) => Err(e),
            Ok(f) => prepend(f, functions_in(cs.drop_first(), src)),
        }
    }
}

/// The program a syntax tree of the source `src` describes.
pub open spec fn program_of(tree: SyntaxNode, src: Seq<u8>) -> Result<ProgramModel, ParseError> {
    match functions_of(tree, src) {
        Ok(f) => Ok(ProgramModel { functions: f }),
        Err(e) => Err(e),
    }
}

/// An error found in a syntax tree: a function definition that lacks a part,
/// text that is not UTF-8, or a number that is not an `i64`.
pub open spec fn tree_error(e: ParseError) -> bool {
    match e {
        ParseError::MissingDeclarator | ParseError::MissingName | ParseError::MissingBody
            | ParseError::InvalidUtf8 | ParseError::InvalidInteger(_) => true,
        _ => false,
    }
}

proof fn lemma_arguments_errors(cs: Seq<SyntaxNode>, src: Seq<u8>)
    ensures
        arguments_in(cs, src) matches Err(e) ==> tree_error(e),
    decreases cs.len(),
{
    if cs.len() > 0 {
        lemma_arguments_errors(cs.drop_first(), src);
    }
}

proof fn lemma_statements_errors(cs: Seq<SyntaxNode>, src: Seq<u8>)
    ensures
        statements_in(cs, src) matches Err(e) ==> tree_error(e),
    decreases cs.len(),
{
    if cs.len() > 0 {
        lemma_statements_errors(cs.drop_first(), src);
        let c = cs[0];
        if c.kind@ == "expression_statement"@ {
            let k = named_index(c.children@);
            if k >= 0 {
                let call = c.children@[k];
                let ai = field_index(call.children@, "arguments"@);
                if ai >= 0 {
                    lemma_arguments_errors(call.children@[ai].children@, src);
                }
            }
        }
    }
}

proof fn lemma_functions_errors(n: SyntaxNode, src: Seq<u8>)
    ensures
        functions_of(n, src) matches Err(e) ==> tree_error(e),
    decreases n,
{
    if n.kind@ == "function_definition"@ {
        let b = field_index(n.children@, "body"@);
        if b >= 0 {
            lemma_statements_errors(n.children@[b].children@, src);
        }
    } else {
        lemma_functions_in_errors(n.children@, src);
    }
}

proof fn lemma_functions_in_errors(cs: Seq<SyntaxNode>, src: Seq<u8>)
    ensures
        functions_in(cs, src) matches Err(e) ==> tree_error(e),
    decreases cs,
{
    if cs.len() > 0 {
        lemma_functions_errors(cs[0], src);
        lemma_functions_in_errors(cs.drop_first(), src);
    }
}

/// Reading a program from a syntax tree fails only on what the tree holds:
/// never for want of a language or of a tree.
pub proof fn lemma_program_errors(tree: SyntaxNode, src: Seq<u8>)
    ensures
        program_of(tree, src) matches Err(e) ==> tree_error(e),
{
    lemma_functions_errors(tree, src);
}

/// `std::str::from_utf8`: the bytes decoded, exactly when they are valid
/// UTF-8 (its error is dropped).
#[verifier::external_body]
fn utf8_decode(bytes: &[u8]) -> (r: Option<String>)
    ensures
        r is Some <==> valid_utf8(bytes@),
        r matches Some(s) ==> s@ == decode_utf8(bytes@),
{
    std::str::from_utf8(bytes).ok().map(|s| s.to_owned())
}

/// The language of a source file with the given extension.
pub fn language_for_extension(extension: Option<&str>) -> (r: Option<SourceLanguage>)
    ensures
        r == language_of(match extension {
            Some(e) => Some(e@),
            None => None,
        }),
{
    match extension {
        Some(e) => if same_text(e, "c") {
            Some(SourceLanguage::C)
        } else if same_text(e, "cpp") || same_text(e, "cc") || same_text(e, "cxx") {
            Some(SourceLanguage::Cpp)
        } else {
            None
        },
        None => None,
    }
}

/// The source text a node covers (see `node_text`).
pub fn node_text_exec(n: &SyntaxNode, src: &[u8]) -> (r: Option<String>)
    ensures
        match r {
            Some(t) => node_text(*n, src@) == Some(t@),
            None => node_text(*n, src@) is None,
        },
{
    if n.start <= n.end && n.end <= src.len() {
        let b = vstd::slice::slice_subrange(src, n.start, n.end);
        utf8_decode(b)
    } else {
        None
    }
}

proof fn lemma_field_index_found(cs: Seq<SyntaxNode>, f: Seq<char>, i: int)
    requires
        0 <= i < cs.len(),
        cs[i].field matches Some(name) && name@ == f,
        forall|j: int| #![trigger cs[j]] 0 <= j < i ==> !(cs[j].field matches Some(name) && name@ == f),
    ensures
        field_index(cs, f) == i,
    decreases cs.len(),
{
    if i > 0 {
        lemma_field_index_found(cs.drop_first(), f, i - 1);
    }
}

proof fn lemma_field_index_missing(cs: Seq<SyntaxNode>, f: Seq<char>)
    requires
        forall|j: int| #![trigger cs[j]] 0 <= j < cs.len() ==> !(cs[j].field matches Some(name) && name@ == f),
    ensures
        field_index(cs, f) == -1,
    decreases cs.len(),
{
    if cs.len() > 0 {
        lemma_field_index_missing(cs.drop_first(), f);
    }
}

/// The index of the first node of `cs` that fills the field `f`.
pub fn field_child(cs: &Vec<SyntaxNode>, f: &str) -> (r: Option<usize>)
    ensures
        match r {
            Some(i) => i < cs@.len() && field_index(cs@, f@) == i,
            None => field_index(cs@, f@) == -1,
        },
{
    let mut i: usize = 0;
    while i < cs.len()
        invariant
            i <= cs@.len(),
            forall|j: int| #![trigger cs@[j]] 0 <= j < i ==> !(cs@[j].field matches Some(name) && name@ == f@),
        decreases cs@.len() - i,
    {
        match &cs[i].field {
            Some(name) => {
                if same_text(name.as_str(), f) {
                    proof {
                        lemma_field_index_found(cs@, f@, i as int);
                    }
                    return Some(i);
                }
            },
            None => {},
        }
        i = i + 1;
    }
    proof {
        lemma_field_index_missing(cs@, f@);
    }
    None
}

proof fn lemma_named_index_found(cs: Seq<SyntaxNode>, i: int)
    requires
        0 <= i < cs.len(),
        cs[i].named,
        forall|j: int| 0 <= j < i ==> !cs[j].named,
    ensures
        named_index(cs) == i,
    decreases cs.len(),
{
    if i > 0 {
        lemma_named_index_found(cs.drop_first(), i - 1);
    }
}

proof fn lemma_named_index_missing(cs: Seq<SyntaxNode>)
    requires
        forall|j: int| 0 <= j < cs.len() ==> !cs[j].named,
    ensures
        named_index(cs) == -1,
    decreases cs.len(),
{
    if cs.len() > 0 {
        lemma_named_index_missing(cs.drop_first());
    }
}

/// The index of the first named node of `cs`.
pub fn first_named_child(cs: &Vec<SyntaxNode>) -> (r: Option<usize>)
    ensures
        match r {
            Some(i) => i < cs@.len() && named_index(cs@) == i,
            None => named_index(cs@) == -1,
        },
{
    let mut i: usize = 0;
    while i < cs.len()
        invariant
            i <= cs@.len(),
            forall|j: int| 0 <= j < i ==> !cs@[j].named,
        decreases cs@.len() - i,
    {
        if cs[i].named {
            proof {
                lemma_named_index_found(cs@, i as int);
            }
            return Some(i);
        }
        i = i + 1;
    }
    proof {
        lemma_named_index_missing(cs@);
    }
    None
}

/// The name a function declarator declares (see `find_name`).
pub fn find_function_name(node: &SyntaxNode, src: &[u8]) -> (r: Option<String>)
    ensures
        match r {
            Some(t) => find_name(*node, src@) == Some(t@),
            None => find_name(*node, src@) is None,
        },
    decreases node,
{
    if same_text(node.kind.as_str(), "identifier") {
        return node_text_exec(node, src);
    }
    let cs = &node.children;
    let mut i: usize = 0;
    assert(cs@.skip(0) =~= cs@);
    assert(find_name(*node, src@) == find_name_in(cs@, src@));
    while i < cs.len()
        invariant
            i <= cs@.len(),
            cs@ == node.children@,
            find_name(*node, src@) == find_name_in(cs@, src@),
            find_name_in(cs@, src@) == find_name_in(cs@.skip(i as int), src@),
        decreases cs@.len() - i,
    {
        assert(cs@.skip(i as int)[0] == cs@[i as int]);
        assert(cs@.skip(i as int).drop_first() =~= cs@.skip(i + 1));
        assert(decreases_to!(*node => node.children@[i as int]));
        match find_function_name(&cs[i], src) {
            Some(name) => {
                assert(find_name_in(cs@.skip(i as int), src@) == Some(name@));
                return Some(name);
            },
            None => {},
        }
        i = i + 1;
    }
    assert(cs@.skip(i as int) =~= Seq::<SyntaxNode>::empty());
    None
}

/// The value of a call argument node (see `argument_of`).
fn parse_argument(c: &SyntaxNode, src: &[u8]) -> (r: Result<Option<Expression>, ParseError>)
    ensures
        match r {
            Ok(Some(e)) => argument_of(*c, src@) == Ok::<Option<ExprModel>, ParseError>(Some(e@)),
            Ok(None) => argument_of(*c, src@) == Ok::<Option<ExprModel>, ParseError>(None),
            Err(e) => argument_of(*c, src@) == Err::<Option<ExprModel>, ParseError>(e),
        },
{
    let kind = c.kind.as_str();
    if same_text(kind, "string_literal") {
        match node_text_exec(c, src) {
            Some(t) => {
                let chars = chars_of(t.as_str());
                let value = literal_value_exec(chars.as_slice());
                Ok(Some(Expression::String(string_of(value.as_slice()))))
            },
            None => Err(ParseError::InvalidUtf8),
        }
    } else if same_text(kind, "identifier") {
        match node_text_exec(c, src) {
            Some(t) => Ok(Some(Expression::Identifier(t))),
            None => Err(ParseError::InvalidUtf8),
        }
    } else if same_text(kind, "number_literal") {
        match node_text_exec(c, src) {
            Some(t) => {
                let chars = chars_of(t.as_str());
                match parse_i64(chars.as_slice()) {
                    Ok(v) => Ok(Some(Expression::Integer(v))),
                    Err(e) => Err(ParseError::InvalidInteger(e)),
                }
            },
            None => Err(ParseError::InvalidUtf8),
        }
    } else {
        Ok(None)
    }
}

/// The arguments read from the named nodes among `cs` (see `arguments_in`).
fn parse_arguments(cs: &Vec<SyntaxNode>, src: &[u8]) -> (r: Result<Vec<Expression>, ParseError>)
    ensures
        match r {
            Ok(v) => arguments_in(cs@, src@) == Ok::<Seq<ExprModel>, ParseError>(exprs_view(v@)),
            Err(e) => arguments_in(cs@, src@) == Err::<Seq<ExprModel>, ParseError>(e),
        },
{
    let mut out: Vec<Expression> = Vec::new();
    let mut i: usize = 0;
    assert(cs@.skip(0) =~= cs@);
    assert(exprs_view(out@) =~= Seq::<ExprModel>::empty());
    assert(prepend(Seq::<ExprModel>::empty(), arguments_in(cs@, src@)) == arguments_in(cs@, src@)) by {
        match arguments_in(cs@, src@) {
            Ok(x) => {
                assert(Seq::<ExprModel>::empty() + x =~= x);
            },
            Err(_) => {},
        }
    }
    while i < cs.len()
        invariant
            i <= cs@.len(),
            arguments_in(cs@, src@) == prepend(exprs_view(out@), arguments_in(cs@.skip(i as int), src@)),
        decreases cs@.len() - i,
    {
        let ghost rest = cs@.skip(i as int);
        assert(rest[0] == cs@[i as int]);
        assert(rest.drop_first() =~= cs@.skip(i + 1));
        if cs[i].named {
            match parse_argument(&cs[i], src) {
                Err(e) => {
                    return Err(e);
                },
                Ok(None) => {},
                Ok(Some(a)) => {
                    let ghost before = exprs_view(out@);
                    let ghost av = a@;
                    out.push(a);
                    assert(exprs_view(out@) =~= before + seq![av]);
                    proof {
                        match arguments_in(cs@.skip(i + 1), src@) {
                            Ok(x) => {
                                assert(before + (seq![av] + x) =~= before + seq![av] + x);
                            },
                            Err(_) => {},
                        }
                    }
                },
            }
        }
        i = i + 1;
    }
    assert(cs@.skip(i as int) =~= Seq::<SyntaxNode>::empty());
    assert(exprs_view(out@) + Seq::<ExprModel>::empty() =~= exprs_view(out@));
    Ok(out)
}

/// The statement a node of a function body stands for (see `statement_of`).
fn parse_statement(c: &SyntaxNode, src: &[u8]) -> (r: Result<Option<Statement>, ParseError>)
    ensures
        match r {
            Ok(Some(st)) => statement_of(*c, src@) == Ok::<Option<StmtModel>, ParseError>(Some(st@)),
            Ok(None) => statement_of(*c, src@) == Ok::<Option<StmtModel>, ParseError>(None),
            Err(e) => statement_of(*c, src@) == Err::<Option<StmtModel>, ParseError>(e),
        },
{
    let kind = c.kind.as_str();
    if same_text(kind, "expression_statement") {
        let k = match first_named_child(&c.children) {
            Some(k) => k,
            None => {
                return Ok(None);
            },
        };
        let call = &c.children[k];
        if !same_text(call.kind.as_str(), "call_expression") {
            return Ok(None);
        }
        let fi = match field_child(&call.children, "function") {
            Some(fi) => fi,
            None => {
                return Ok(None);
            },
        };
        let name = match node_text_exec(&call.children[fi], src) {
            Some(name) => name,
            None => {
                return Err(ParseError::InvalidUtf8);
            },
        };
        let arguments = match field_child(&call.children, "arguments") {
            Some(ai) => match parse_arguments(&call.children[ai].children, src) {
                Ok(a) => a,
                Err(e) => {
                    return Err(e);
                },
            },
            None => Vec::new(),
        };
        proof {
            if field_index(call.children@, "arguments"@) < 0 {
                assert(exprs_view(arguments@) =~= Seq::<ExprModel>::empty());
            }
        }
        Ok(Some(Statement::Call { name, arguments }))
    } else if same_text(kind, "return_statement") {
        Ok(Some(Statement::Return))
    } else {
        Ok(None)
    }
}

/// The statements read from the named children of a function body (see
/// `statements_in`).
pub fn parse_statements(node: &SyntaxNode, src: &[u8]) -> (r: Result<Vec<Statement>, ParseError>)
    ensures
        match r {
            Ok(v) => statements_in(node.children@, src@) == Ok::<Seq<StmtModel>, ParseError>(stmts_view(v@)),
            Err(e) => statements_in(node.children@, src@) == Err::<Seq<StmtModel>, ParseError>(e),
        },
{
    let cs = &node.children;
    let mut out: Vec<Statement> = Vec::new();
    let mut i: usize = 0;
    assert(cs@.skip(0) =~= cs@);
    assert(stmts_view(out@) =~= Seq::<StmtModel>::empty());
    assert(prepend(Seq::<StmtModel>::empty(), statements_in(cs@, src@)) == statements_in(cs@, src@)) by {
        match statements_in(cs@, src@) {
            Ok(x) => {
                assert(Seq::<StmtModel>::empty() + x =~= x);
            },
            Err(_) => {},
        }
    }
    while i < cs.len()
        invariant
            i <= cs@.len(),
            cs@ == node.children@,
            statements_in(cs@, src@) == prepend(stmts_view(out@), statements_in(cs@.skip(i as int), src@)),
        decreases cs@.len() - i,
    {
        let ghost rest = cs@.skip(i as int);
        assert(rest[0] == cs@[i as int]);
        assert(rest.drop_first() =~= cs@.skip(i + 1));
        if cs[i].named {
            match parse_statement(&cs[i], src) {
                Err(e) => {
                    return Err(e);
                },
                Ok(None) => {},
                Ok(Some(st)) => {
                    let ghost before = stmts_view(out@);
                    let ghost sv = st@;
                    out.push(st);
                    assert(stmts_view(out@) =~= before + seq![sv]);
                    proof {
                        match statements_in(cs@.skip(i + 1), src@) {
                            Ok(x) => {
                                assert(before + (seq![sv] + x) =~= before + seq![sv] + x);
                            },
                            Err(_) => {},
                        }
                    }
                },
            }
        }
        i = i + 1;
    }
    assert(cs@.skip(i as int) =~= Seq::<SyntaxNode>::empty());
    assert(stmts_view(out@) + Seq::<StmtModel>::empty() =~= stmts_view(out@));
    Ok(out)
}

/// Appends the functions defined in the subtree `node` to `functions` (see
/// `functions_of`); on an error, what was appended before it stays.
pub fn collect_functions(node: &SyntaxNode, src: &[u8], functions: &mut Vec<Function>) -> (r: Result<(), ParseError>)
    ensures
        match r {
            Ok(()) => functions_of(*node, src@) matches Ok(f) && functions_view(final(functions)@)
                == functions_view(old(functions)@) + f,
            Err(e) => functions_of(*node, src@) == Err::<Seq<FunctionModel>, ParseError>(e),
        },
    decreases node,
{
    if same_text(node.kind.as_str(), "function_definition") {
        let d = match field_child(&node.children, "declarator") {
            Some(d) => d,
            None => {
                return Err(ParseError::MissingDeclarator);
            },
        };
        let name = match find_function_name(&node.children[d], src) {
            Some(name) => name,
            None => {
                return Err(ParseError::MissingName);
            },
        };
        let b = match field_child(&node.children, "body") {
            Some(b) => b,
            None => {
                return Err(ParseError::MissingBody);
            },
        };
        let body = match parse_statements(&node.children[b], src) {
            Ok(body) => body,
            Err(e) => {
                return Err(e);
            },
        };
        let ghost before = functions_view(functions@);
        let f = Function { name, body };
        let ghost fv = f@;
        functions.push(f);
        assert(functions_view(functions@) =~= before + seq![fv]);
        return Ok(());
    }
    let cs = &node.children;
    let ghost start = functions_view(functions@);
    let mut i: usize = 0;
    assert(cs@.skip(0) =~= cs@);
    assert(functions_of(*node, src@) == functions_in(cs@, src@));
    assert(functions_view(functions@) =~= start + Seq::<FunctionModel>::empty());
    assert(prepend(Seq::<FunctionModel>::empty(), functions_in(cs@, src@)) == functions_in(cs@, src@)) by {
        match functions_in(cs@, src@) {
            Ok(x) => {
                assert(Seq::<FunctionModel>::empty() + x =~= x);
            },
            Err(_) => {},
        }
    }
    let ghost mut done: Seq<FunctionModel> = Seq::empty();
    while i < cs.len()
        invariant
            i <= cs@.len(),
            cs@ == node.children@,
            functions_view(functions@) == start + done,
            start == functions_view(old(functions)@),
            functions_of(*node, src@) == functions_in(cs@, src@),
            functions_in(cs@, src@) == prepend(done, functions_in(cs@.skip(i as int), src@)),
        decreases cs@.len() - i,
    {
        let ghost rest = cs@.skip(i as int);
        assert(rest[0] == cs@[i as int]);
        assert(rest.drop_first() =~= cs@.skip(i + 1));
        assert(decreases_to!(*node => node.children@[i as int]));
        let ghost before = functions_view(functions@);
        match collect_functions(&cs[i], src, functions) {
            Err(e) => {
                return Err(e);
            },
            Ok(()) => {},
        }
        proof {
            let f = functions_of(cs@[i as int], src@)->Ok_0;
            assert(functions_view(functions@) == before + f);
            match functions_in(cs@.skip(i + 1), src@) {
                Ok(x) => {
                    assert(done + (f + x) =~= done + f + x);
                },
                Err(_) => {},
            }
            assert(functions_view(functions@) =~= start + (done + f));
            done = done + f;
        }
        i = i + 1;
    }
    assert(cs@.skip(i as int) =~= Seq::<SyntaxNode>::empty());
    assert(done + Seq::<FunctionModel>::empty() =~= done);
    Ok(())
}

/// The program a syntax tree of the source `src` describes (see
/// `program_of`).
pub fn program_from_tree(tree: &SyntaxNode, src: &[u8]) -> (r: Result<Program, ParseError>)
    ensures
        match r {
            Ok(p) => program_of(*tree, src@) == Ok::<ProgramModel, ParseError>(p@),
            Err(e) => program_of(*tree, src@) == Err::<ProgramModel, ParseError>(e),
        },
{
    let mut functions: Vec<Function> = Vec::new();
    assert(functions_view(functions@) =~= Seq::<FunctionModel>::empty());
    match collect_functions(tree, src, &mut functions) {
        Ok(()) => {
            let p = Program { functions };
            proof {
                let f = functions_of(*tree, src@)->Ok_0;
                assert(functions_view(p.functions@) =~= Seq::<FunctionModel>::empty() + f);
                assert(Seq::<FunctionModel>::empty() + f =~= f);
            }
            Ok(p)
        },
        Err(e) => Err(e),
    }
}

/// The text of an optional extension.
pub open spec fn extension_text(extension: Option<&str>) -> Option<Seq<char>> {
    match extension {
        Some(x) => Some(x@),
        None => None,
    }
}

/// `t` is the syntax tree that the tree-sitter grammar of `language` gives
/// for `source` (see `parsed_entries`), its byte ranges within the source.
pub open spec fn parse_tree_of(t: SyntaxNode, source: Seq<char>, language: SourceLanguage) -> bool {
    describes(t, parsed_entries(source, language), 0) && node_wf(t, encode_utf8(source).len())
}

/// What reading `source` from a file with the given extension gives: no
/// language for the extension, a grammar the parser refuses, no tree to
/// read, or the program (or error) read from the tree.
pub open spec fn parses_to(extension: Option<Seq<char>>, source: Seq<char>, r: Result<ProgramModel, ParseError>) -> bool {
    match language_of(extension) {
        None => r == Err::<ProgramModel, ParseError>(ParseError::UnsupportedSource),
        Some(l) => if !grammar_accepted(l) {
            r == Err::<ProgramModel, ParseError>(ParseError::LanguageSetup)
        } else if exists|t: SyntaxNode| parse_tree_of(t, source, l) {
            exists|t: SyntaxNode| parse_tree_of(t, source, l) && #[trigger] program_of(t, encode_utf8(source)) == r
        } else {
            r == Err::<ProgramModel, ParseError>(ParseError::ParseFailed)
        },
    }
}

/// The model of a parse result.
pub open spec fn result_view(r: Result<Program, ParseError>) -> Result<ProgramModel, ParseError> {
    match r {
        Ok(p) => Ok(p@),
        Err(e) => Err(e),
    }
}

proof fn lemma_field_index_same(s: Seq<SyntaxNode>, t: Seq<SyntaxNode>, f: Seq<char>)
    requires
        same_trees(s, t),
    ensures
        field_index(s, f) == field_index(t, f),
    decreases s.len(),
{
    if s.len() > 0 {
        assert(same_tree(s[0], t[0]));
        lemma_field_index_same(s.drop_first(), t.drop_first(), f);
    }
}

proof fn lemma_named_index_same(s: Seq<SyntaxNode>, t: Seq<SyntaxNode>)
    requires
        same_trees(s, t),
    ensures
        named_index(s) == named_index(t),
    decreases s.len(),
{
    if s.len() > 0 {
        assert(same_tree(s[0], t[0]));
        lemma_named_index_same(s.drop_first(), t.drop_first());
    }
}

proof fn lemma_find_name_same(a: SyntaxNode, b: SyntaxNode, src: Seq<u8>)
    requires
        same_tree(a, b),
    ensures
        find_name(a, src) == find_name(b, src),
    decreases a,
{
    lemma_find_name_in_same(a.children@, b.children@, src);
}

proof fn lemma_find_name_in_same(s: Seq<SyntaxNode>, t: Seq<SyntaxNode>, src: Seq<u8>)
    requires
        same_trees(s, t),
    ensures
        find_name_in(s, src) == find_name_in(t, src),
    decreases s,
{
    if s.len() > 0 {
        lemma_find_name_same(s[0], t[0], src);
        lemma_find_name_in_same(s.drop_first(), t.drop_first(), src);
    }
}

proof fn lemma_arguments_same(s: Seq<SyntaxNode>, t: Seq<SyntaxNode>, src: Seq<u8>)
    requires
        same_trees(s, t),
    ensures
        arguments_in(s, src) == arguments_in(t, src),
    decreases s.len(),
{
    if s.len() > 0 {
        assert(same_tree(s[0], t[0]));
        lemma_arguments_same(s.drop_first(), t.drop_first(), src);
        assert(argument_of(s[0], src) == argument_of(t[0], src));
    }
}

proof fn lemma_statement_same(a: SyntaxNode, b: SyntaxNode, src: Seq<u8>)
    requires
        same_tree(a, b),
    ensures
        statement_of(a, src) == statement_of(b, src),
{
    if a.kind@ == "expression_statement"@ {
        lemma_named_index_same(a.children@, b.children@);
        let k = named_index(a.children@);
        if k >= 0 {
            lemma_named_index_bounds(a.children@);
            lemma_same_trees_index(a.children@, b.children@, k);
            let ca = a.children@[k];
            let cb = b.children@[k];
            lemma_field_index_same(ca.children@, cb.children@, "function"@);
            lemma_field_index_same(ca.children@, cb.children@, "arguments"@);
            let fi = field_index(ca.children@, "function"@);
            let ai = field_index(ca.children@, "arguments"@);
            if fi >= 0 {
                lemma_field_index_bounds(ca.children@, "function"@);
                lemma_same_trees_index(ca.children@, cb.children@, fi);
            }
            if ai >= 0 {
                lemma_field_index_bounds(ca.children@, "arguments"@);
                lemma_same_trees_index(ca.children@, cb.children@, ai);
                lemma_arguments_same(ca.children@[ai].children@, cb.children@[ai].children@, src);
            }
        }
    }
}

proof fn lemma_statements_same(s: Seq<SyntaxNode>, t: Seq<SyntaxNode>, src: Seq<u8>)
    requires
        same_trees(s, t),
    ensures
        statements_in(s, src) == statements_in(t, src),
    decreases s.len(),
{
    if s.len() > 0 {
        assert(same_tree(s[0], t[0]));
        lemma_statement_same(s[0], t[0], src);
        lemma_statements_same(s.drop_first(), t.drop_first(), src);
    }
}

proof fn lemma_functions_same(a: SyntaxNode, b: SyntaxNode, src: Seq<u8>)
    requires
        same_tree(a, b),
    ensures
        functions_of(a, src) == functions_of(b, src),
    decreases a,
{
    if a.kind@ == "function_definition"@ {
        lemma_field_index_same(a.children@, b.children@, "declarator"@);
        lemma_field_index_same(a.children@, b.children@, "body"@);
        let d = field_index(a.children@, "declarator"@);
        let k = field_index(a.children@, "body"@);
        if d >= 0 {
            lemma_field_index_bounds(a.children@, "declarator"@);
            lemma_same_trees_index(a.children@, b.children@, d);
            lemma_find_name_same(a.children@[d], b.children@[d], src);
        }
        if k >= 0 {
            lemma_field_index_bounds(a.children@, "body"@);
            lemma_same_trees_index(a.children@, b.children@, k);
            lemma_statements_same(a.children@[k].children@, b.children@[k].children@, src);
        }
    } else {
        lemma_functions_in_same(a.children@, b.children@, src);
    }
}

proof fn lemma_functions_in_same(s: Seq<SyntaxNode>, t: Seq<SyntaxNode>, src: Seq<u8>)
    requires
        same_trees(s, t),
    ensures
        functions_in(s, src) == functions_in(t, src),
    decreases s,
{
    if s.len() > 0 {
        lemma_functions_same(s[0], t[0], src);
        lemma_functions_in_same(s.drop_first(), t.drop_first(), src);
    }
}

proof fn lemma_field_index_bounds(s: Seq<SyntaxNode>, f: Seq<char>)
    ensures
        -1 <= field_index(s, f) < s.len(),
    decreases s.len(),
{
    if s.len() > 0 {
        lemma_field_index_bounds(s.drop_first(), f);
    }
}

proof fn lemma_named_index_bounds(s: Seq<SyntaxNode>)
    ensures
        -1 <= named_index(s) < s.len(),
    decreases s.len(),
{
    if s.len() > 0 {
        lemma_named_index_bounds(s.drop_first());
    }
}

/// Reading a source gives one result: whatever tree stands for the parse,
/// the program read from it is the same.
pub proof fn lemma_parse_unique(extension: Option<Seq<char>>, source: Seq<char>, r1: Result<ProgramModel, ParseError>, r2: Result<ProgramModel, ParseError>)
    requires
        parses_to(extension, source, r1),
        parses_to(extension, source, r2),
    ensures
        r1 == r2,
{
    if let Some(l) = language_of(extension) {
        if grammar_accepted(l) && exists|t: SyntaxNode| parse_tree_of(t, source, l) {
            let t1 = choose|t: SyntaxNode| parse_tree_of(t, source, l) && #[trigger] program_of(t, encode_utf8(source)) == r1;
            let t2 = choose|t: SyntaxNode| parse_tree_of(t, source, l) && #[trigger] program_of(t, encode_utf8(source)) == r2;
            lemma_describes_same(t1, t2, parsed_entries(source, l), 0);
            lemma_functions_same(t1, t2, encode_utf8(source));
        }
    }
}

/// Parses C or C++ source into a program: the language comes from the file
/// extension, the source is parsed with the tree-sitter grammar of that
/// language, and the program is read from the tree (see `parses_to`).
pub fn parse_source(extension: Option<&str>, source: &str) -> (r: Result<Program, ParseError>)
    ensures
        parses_to(extension_text(extension), source@, result_view(r)),
{
    let language = match language_for_extension(extension) {
        Some(l) => l,
        None => {
            return Err(ParseError::UnsupportedSource);
        },
    };
    let tree = match syntax_tree(source, language) {
        Ok(t) => t,
        Err(TreeError::LanguageSetup) => {
            return Err(ParseError::LanguageSetup);
        },
        Err(TreeError::NoTree) => {
            proof {
                assert forall|t: SyntaxNode| !parse_tree_of(t, source@, language) by {
                    if describes(t, parsed_entries(source@, language), 0) {
                    }
                }
            }
            return Err(ParseError::ParseFailed);
        },
    };
    let bytes = source.as_bytes();
    proof {
        assert(bytes@ == encode_utf8(source@));
        assert(parse_tree_of(tree, source@, language));
    }
    let r = program_from_tree(&tree, bytes);
    proof {
        assert(program_of(tree, encode_utf8(source@)) == result_view(r));
    }
    r
}

} // verus!
