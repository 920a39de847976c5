//! What the guard reads of a source file: its functions, and of each body the macros, the calls
//! and the matches in it.

use syn::buffer::{Cursor, TokenBuffer};
use syn::visit::{self, Visit};
use syn::{Expr, ExprCall, ExprMatch, Item, Macro, Stmt};
use vstd::prelude::*;

verus! {

/// A macro invocation in `syn`'s tree.
#[verifier::external_type_specification]
#[verifier::external_body]
pub struct ExMacro(Macro);

/// A call in `syn`'s tree.
#[verifier::external_type_specification]
#[verifier::external_body]
pub struct ExExprCall(ExprCall);

/// A `match` in `syn`'s tree.
#[verifier::external_type_specification]
#[verifier::external_body]
pub struct ExExprMatch(ExprMatch);

/// An expression in `syn`'s tree.
#[verifier::external_type_specification]
#[verifier::external_body]
pub struct ExExpr(Expr);

/// A place among the tokens that `syn` has not parsed.
#[verifier::external_type_specification]
#[verifier::external_body]
pub struct ExCursor<'a>(Cursor<'a>);

/// What is called: the segments of a path, or `None` where the callee is no path.
pub type Callee = Option<Vec<String>>;

/// A token of what a macro is given.
#[derive(Debug, PartialEq, Eq)]
pub enum TokenSyntax {
    /// The bracket that opens a group.
    Open(Option<char>),
    /// The bracket that closes a group.
    Close,
    /// An identifier, a punctuation mark or a literal, as it is written.
    Word(String),
}

/// An invocation of a macro.
#[derive(Debug)]
pub struct MacroSyntax {
    /// The path of the macro, by its segments.
    pub path: Vec<String>,
    /// What the macro is given, with the tokens of each group between its brackets.
    pub tokens: Vec<TokenSyntax>,
}

/// What a `return` is given.
#[derive(Debug)]
pub enum ReturnedSyntax {
    Nothing,
    /// A call of this callee.
    Call(Callee),
    Other,
}

/// A statement, as far as it tells how an arm ends.
#[derive(Debug)]
pub enum StatementSyntax {
    Return(ReturnedSyntax),
    Other,
}

/// The body of an arm: the statements of a block, or an expression that is no block.
#[derive(Debug)]
pub enum BodySyntax {
    Block(Vec<StatementSyntax>),
    Plain(StatementSyntax),
}

/// An arm of a `match` expression. Calls and macros stand in the order of the source.
#[derive(Debug)]
pub struct ArmSyntax {
    pub body: BodySyntax,
    /// What the arm's body calls.
    pub calls: Vec<Callee>,
    /// The macros that the arm's body invokes.
    pub macros: Vec<MacroSyntax>,
}

/// A `match` expression.
#[derive(Debug)]
pub struct MatchSyntax {
    /// The identifier that is matched on, where it is a plain one.
    pub scrutinee: Option<String>,
    pub arms: Vec<ArmSyntax>,
}

/// A function and what stands in its body, each in the order of the source.
#[derive(Debug)]
pub struct FnSyntax {
    pub name: String,
    /// The macros that are invoked.
    pub macros: Vec<MacroSyntax>,
    /// What each call calls.
    pub calls: Vec<Callee>,
    /// The `match` expressions, an outer one before those inside it.
    pub matches: Vec<MatchSyntax>,
}

/// An item at the top level of a file.
#[derive(Debug)]
pub enum ItemSyntax {
    Fn(FnSyntax),
    Other,
}

/// The mathematical value of a [`Callee`].
pub type CalleeModel = Option<Seq<Seq<char>>>;

/// The mathematical value of a [`TokenSyntax`].
pub enum TokenModel {
    Open(Option<char>),
    Close,
    Word(Seq<char>),
}

/// The mathematical value of a [`MacroSyntax`].
pub struct MacroModel {
    pub path: Seq<Seq<char>>,
    pub tokens: Seq<TokenModel>,
}

/// The mathematical value of a [`ReturnedSyntax`].
pub enum ReturnedModel {
    Nothing,
    Call(CalleeModel),
    Other,
}

/// The mathematical value of a [`StatementSyntax`].
pub enum StatementModel {
    Return(ReturnedModel),
    Other,
}

/// The mathematical value of a [`BodySyntax`].
pub enum BodyModel {
    Block(Seq<StatementModel>),
    Plain(StatementModel),
}

/// The mathematical value of an [`ArmSyntax`].
pub struct ArmModel {
    pub body: BodyModel,
    pub calls: Seq<CalleeModel>,
    pub macros: Seq<MacroModel>,
}

/// The mathematical value of a [`MatchSyntax`].
pub struct MatchModel {
    pub scrutinee: Option<Seq<char>>,
    pub arms: Seq<ArmModel>,
}

/// The mathematical value of a [`FnSyntax`].
pub struct FnModel {
    pub name: Seq<char>,
    pub macros: Seq<MacroModel>,
    pub calls: Seq<CalleeModel>,
    pub matches: Seq<MatchModel>,
}

/// The mathematical value of an [`ItemSyntax`].
pub enum ItemModel {
    Fn(FnModel),
    Other,
}

impl DeepView for TokenSyntax {
    type V = TokenModel;

    open spec fn deep_view(&self) -> TokenModel {
        match self {
            TokenSyntax::Open(bracket) => TokenModel::Open(*bracket),
            TokenSyntax::Close => TokenModel::Close,
            TokenSyntax::Word(word) => TokenModel::Word(word@),
        }
    }
}

impl DeepView for MacroSyntax {
    type V = MacroModel;

    open spec fn deep_view(&self) -> MacroModel {
        MacroModel { path: self.path.deep_view(), tokens: self.tokens.deep_view() }
    }
}

impl DeepView for ReturnedSyntax {
    type V = ReturnedModel;

    open spec fn deep_view(&self) -> ReturnedModel {
        match self {
            ReturnedSyntax::Nothing => ReturnedModel::Nothing,
            ReturnedSyntax::Call(callee) => ReturnedModel::Call(callee.deep_view()),
            ReturnedSyntax::Other => ReturnedModel::Other,
        }
    }
}

impl DeepView for StatementSyntax {
    type V = StatementModel;

    open spec fn deep_view(&self) -> StatementModel {
        match self {
            StatementSyntax::Return(returned) => StatementModel::Return(returned.deep_view()),
            StatementSyntax::Other => StatementModel::Other,
        }
    }
}

impl DeepView for BodySyntax {
    type V = BodyModel;

    open spec fn deep_view(&self) -> BodyModel {
        match self {
            BodySyntax::Block(statements) => BodyModel::Block(statements.deep_view()),
            BodySyntax::Plain(statement) => BodyModel::Plain(statement.deep_view()),
        }
    }
}

impl DeepView for ArmSyntax {
    type V = ArmModel;

    open spec fn deep_view(&self) -> ArmModel {
        ArmModel {
            body: self.body.deep_view(),
            calls: self.calls.deep_view(),
            macros: self.macros.deep_view(),
        }
    }
}

impl DeepView for MatchSyntax {
    type V = MatchModel;

    open spec fn deep_view(&self) -> MatchModel {
        MatchModel { scrutinee: self.scrutinee.deep_view(), arms: self.arms.deep_view() }
    }
}

impl DeepView for FnSyntax {
    type V = FnModel;

    open spec fn deep_view(&self) -> FnModel {
        FnModel {
            name: self.name@,
            macros: self.macros.deep_view(),
            calls: self.calls.deep_view(),
            matches: self.matches.deep_view(),
        }
    }
}

impl DeepView for ItemSyntax {
    type V = ItemModel;

    open spec fn deep_view(&self) -> ItemModel {
        match self {
            ItemSyntax::Fn(f) => ItemModel::Fn(f.deep_view()),
            ItemSyntax::Other => ItemModel::Other,
        }
    }
}

/// The tokens from `cursor` to the end of its group, by `syn::buffer::Cursor`'s `token_tree` and
/// `any_group`. Nothing is promised of them here: they are part of what [`parsed_source`] names.
#[verifier::external_body]
fn tokens_from(cursor: Cursor<'_>) -> Vec<TokenSyntax> {
    let (mut tokens, mut rest) = (vec![], cursor);
    while let Some((tree, after)) = rest.token_tree() {
        match rest.any_group() {
            Some((inside, ..)) => {
                tokens.push(TokenSyntax::Open(tree.to_string().chars().next()));
                tokens.extend(tokens_from(inside));
                tokens.push(TokenSyntax::Close);
            }
            None => tokens.push(TokenSyntax::Word(tree.to_string())),
        }
        rest = after;
    }
    tokens
}

/// A macro of `syn` as plain data: its path and, by `syn::buffer::TokenBuffer`, what it is given.
#[verifier::external_body]
fn macro_syntax(mac: &Macro) -> MacroSyntax {
    let path = mac.path.segments.iter().map(|s| s.ident.to_string()).collect();
    let buffer = TokenBuffer::new2(mac.tokens.clone());
    MacroSyntax { path, tokens: tokens_from(buffer.begin()) }
}

/// The callee of a call of `syn` as plain data: the segments where it is a path.
#[verifier::external_body]
fn callee_syntax(func: &Expr) -> Callee {
    match func {
        Expr::Path(p) => Some(p.path.segments.iter().map(|s| s.ident.to_string()).collect()),
        _ => None,
    }
}

/// An expression of `syn` as plain data, as far as it tells how an arm ends.
#[verifier::external_body]
fn statement_syntax(expr: &Expr) -> StatementSyntax {
    match expr {
        Expr::Return(returned) => StatementSyntax::Return(match returned.expr.as_deref() {
            None => ReturnedSyntax::Nothing,
            Some(Expr::Call(call)) => ReturnedSyntax::Call(callee_syntax(&call.func)),
            Some(_) => ReturnedSyntax::Other,
        }),
        _ => StatementSyntax::Other,
    }
}

/// The body of an arm of `syn` as plain data.
#[verifier::external_body]
fn body_syntax(body: &Expr) -> BodySyntax {
    match body {
        Expr::Block(b) => BodySyntax::Block(b.block.stmts.iter().map(|statement| match statement {
            Stmt::Expr(expr, _) => statement_syntax(expr),
            _ => StatementSyntax::Other,
        }).collect()),
        _ => BodySyntax::Plain(statement_syntax(body)),
    }
}

/// What an expression calls and the macros that it invokes, in the order of the source.
#[derive(Debug)]
pub struct CallCollector {
    pub calls: Vec<Callee>,
    pub macros: Vec<MacroSyntax>,
}

/// `syn`'s walk over an expression hands each macro and call to these methods.
impl<'ast> Visit<'ast> for CallCollector {
    /// Keeps the macro, then goes on with `syn::visit::visit_macro`, which does not walk into what
    /// the macro is given.
    #[verifier::external_body]
    fn visit_macro(&mut self, mac: &'ast Macro) {
        self.macros.push(macro_syntax(mac));
        visit::visit_macro(self, mac);
    }

    /// Keeps the callee, then goes on with `syn::visit::visit_expr_call`.
    #[verifier::external_body]
    fn visit_expr_call(&mut self, call: &'ast ExprCall) {
        self.calls.push(callee_syntax(&call.func));
        visit::visit_expr_call(self, call);
    }
}

/// `syn`'s walk over a block hands each macro, call and match to these methods. Each keeps what the
/// guard reads of the node and lets the walk go on below it.
impl<'ast> Visit<'ast> for FnSyntax {
    /// Keeps the macro, then goes on with `syn::visit::visit_macro`, which does not walk into what
    /// the macro is given.
    #[verifier::external_body]
    fn visit_macro(&mut self, mac: &'ast Macro) {
        self.macros.push(macro_syntax(mac));
        visit::visit_macro(self, mac);
    }

    /// Keeps the callee, then goes on with `syn::visit::visit_expr_call`.
    #[verifier::external_body]
    fn visit_expr_call(&mut self, call: &'ast ExprCall) {
        self.calls.push(callee_syntax(&call.func));
        visit::visit_expr_call(self, call);
    }

    /// Keeps the identifier that is matched on and, of each arm, its body, its calls and its macros,
    /// then goes on with `syn::visit::visit_expr_match`.
    #[verifier::external_body]
    fn visit_expr_match(&mut self, expr_match: &'ast ExprMatch) {
        let scrutinee = match expr_match.expr.as_ref() {
            Expr::Path(p) => p.path.get_ident().map(|ident| ident.to_string()),
            _ => None,
        };
        let arms = expr_match.arms.iter().map(|arm| {
            let mut found = CallCollector { calls: vec![], macros: vec![] };
            found.visit_expr(&arm.body);
            ArmSyntax { body: body_syntax(&arm.body), calls: found.calls, macros: found.macros }
        }).collect();
        self.matches.push(MatchSyntax { scrutinee, arms });
        visit::visit_expr_match(self, expr_match);
    }
}

/// What `syn::parse_file` makes of a source text: its items, with what `syn`'s walk over the block of
/// each function meets, or the message of the error.
pub uninterp spec fn parsed_source(src: Seq<char>) -> Result<Seq<ItemModel>, Seq<char>>;

/// Parses a source file with `syn::parse_file`, and walks the block of each function with
/// `syn::visit::Visit::visit_block`. The contract says that the result depends on the text alone;
/// the grammar and the order of the walk are left to `syn`.
#[verifier::external_body]
pub(crate) fn parse_source(src: &str) -> (parsed: Result<Vec<ItemSyntax>, String>)
    ensures
        match parsed {
            Ok(items) => parsed_source(src@) == Ok::<Seq<ItemModel>, Seq<char>>(items.deep_view()),
            Err(message) => parsed_source(src@) == Err::<Seq<ItemModel>, Seq<char>>(message@),
        },
{
    let file = syn::parse_file(src).map_err(|error| error.to_string())?;
    Ok(file.items.iter().map(|item| match item {
        Item::Fn(f) => {
            let name = f.sig.ident.to_string();
            let mut found = FnSyntax { name, macros: vec![], calls: vec![], matches: vec![] };
            found.visit_block(&f.block);
            ItemSyntax::Fn(found)
        }
        _ => ItemSyntax::Other,
    }).collect())
}

/// The mathematical value of a function holds all that the function holds, each in its place.
pub proof fn law_functions_are_viewed_whole(f: FnSyntax, i: int)
    ensures
        f.deep_view().name == f.name@,
        f.deep_view().macros.len() == f.macros@.len(),
        f.deep_view().calls.len() == f.calls@.len(),
        f.deep_view().matches.len() == f.matches@.len(),
        0 <= i < f.macros@.len() ==> f.deep_view().macros[i] == f.macros@[i].deep_view(),
        0 <= i < f.calls@.len() ==> f.deep_view().calls[i] == f.calls@[i].deep_view(),
        0 <= i < f.matches@.len() ==> f.deep_view().matches[i] == f.matches@[i].deep_view(),
{
}

/// So does that of a macro.
pub proof fn law_macros_are_viewed_whole(mac: MacroSyntax, i: int)
    ensures
        mac.deep_view().path.len() == mac.path@.len(),
        mac.deep_view().tokens.len() == mac.tokens@.len(),
        0 <= i < mac.path@.len() ==> mac.deep_view().path[i] == mac.path@[i]@,
        0 <= i < mac.tokens@.len() ==> mac.deep_view().tokens[i] == match mac.tokens@[i] {
            TokenSyntax::Open(bracket) => TokenModel::Open(bracket),
            TokenSyntax::Close => TokenModel::Close,
            TokenSyntax::Word(word) => TokenModel::Word(word@),
        },
{
}

/// So does that of a match and its arms.
pub proof fn law_matches_are_viewed_whole(expr_match: MatchSyntax, i: int)
    ensures
        expr_match.deep_view().scrutinee is Some <==> expr_match.scrutinee is Some,
        expr_match.scrutinee matches Some(ident) ==> expr_match.deep_view().scrutinee == Some(
            ident@,
        ),
        expr_match.deep_view().arms.len() == expr_match.arms@.len(),
        0 <= i < expr_match.arms@.len() ==> {
            let arm = expr_match.arms@[i];
            let model = expr_match.deep_view().arms[i];
            &&& model.calls == arm.calls.deep_view()
            &&& model.macros == arm.macros.deep_view()
            &&& match arm.body {
                BodySyntax::Plain(statement) => model.body == BodyModel::Plain(
                    statement.deep_view(),
                ),
                BodySyntax::Block(statements) => model.body == BodyModel::Block(
                    statements.deep_view(),
                ),
            }
        },
{
}

/// So does that of a statement.
pub proof fn law_statements_are_viewed_whole(callee: Callee)
    ensures
        StatementSyntax::Other.deep_view() == StatementModel::Other,
        StatementSyntax::Return(ReturnedSyntax::Nothing).deep_view() == StatementModel::Return(
            ReturnedModel::Nothing,
        ),
        StatementSyntax::Return(ReturnedSyntax::Other).deep_view() == StatementModel::Return(
            ReturnedModel::Other,
        ),
        StatementSyntax::Return(ReturnedSyntax::Call(callee)).deep_view() == StatementModel::Return(
            ReturnedModel::Call(callee.deep_view()),
        ),
{
}

} // verus!
