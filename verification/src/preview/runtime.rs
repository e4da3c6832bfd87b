use vstd::prelude::*;
use crate::ir::{ExprModel, ProgramModel, StmtModel, executed_prefix, executed_statements, main_index};
use crate::preview::ir::{Expression, Function, Program, Statement};
use crate::preview::screen::{
    ScreenModel,
    VirtualScreen,
    circle_points,
    ellipse_fits,
    ellipse_in_range,
    ellipse_points,
    wrapped,
    line_points,
    plot,
    plot_all,
    signed,
};
use crate::text::{chars_of, decimal, format_i64, same_text, split_on, string_of};

verus! {

/// The screen that console output and drawing go to.
#[derive(PartialEq, Eq, Structural, Clone, Copy)]
pub enum ScreenTarget {
    Top,
    Bottom,
}

/// The variables a program has assigned, each name once, in order of first
/// assignment.
pub type Variables = Seq<(Seq<char>, ExprModel)>;

/// The position of `name` among the variables, or -1 when it is not there.
pub open spec fn var_index(vars: Variables, name: Seq<char>) -> int
    decreases vars.len(),
{
    if vars.len() == 0 {
        -1
    } else if vars[0].0 == name {
        0
    } else {
        let i = var_index(vars.drop_first(), name);
        if i < 0 { -1 } else { i + 1 }
    }
}

/// The value assigned to `name`, if any.
pub open spec fn lookup(vars: Variables, name: Seq<char>) -> Option<ExprModel> {
    let i = var_index(vars, name);
    if 0 <= i < vars.len() { Some(vars[i].1) } else { None }
}

/// The variables after assigning `value` to `name`: an existing entry is
/// replaced, a new name is added at the end.
pub open spec fn assign(vars: Variables, name: Seq<char>, value: ExprModel) -> Variables {
    let i = var_index(vars, name);
    if 0 <= i < vars.len() { vars.update(i, (name, value)) } else { vars.push((name, value)) }
}

/// The abstract state of a runtime.
pub struct RuntimeModel {
    pub initialized: bool,
    pub console_initialized: bool,
    pub current_screen: ScreenTarget,
    pub top_screen: ScreenModel,
    pub bottom_screen: ScreenModel,
    pub variables: Variables,
}

/// Runs the `main` of a program on two virtual screens.
pub struct Runtime {
    initialized: bool,
    console_initialized: bool,
    current_screen: ScreenTarget,
    top_screen: VirtualScreen,
    bottom_screen: VirtualScreen,
    variables: Vec<(String, Expression)>,
}

/// The width of the top screen.
pub const TOP_WIDTH: usize = 400;
/// The height of the top screen.
pub const TOP_HEIGHT: usize = 240;
/// The width of the bottom screen.
pub const BOTTOM_WIDTH: usize = 320;
/// The height of the bottom screen.
pub const BOTTOM_HEIGHT: usize = 240;

/// The argument at `index` as a `usize`, when it is an integer literal that
/// fits one.
pub open spec fn integer_argument(args: Seq<ExprModel>, index: int) -> Option<usize> {
    if 0 <= index < args.len() {
        match args[index] {
            ExprModel::Integer(v) => if 0 <= v <= usize::MAX { Some(v as usize) } else { None },
            _ => None,
        }
    } else {
        None
    }
}

/// The text that `%d` prints for the argument at `index`: an integer literal,
/// or a variable holding one, in decimal; nothing for anything else.
pub open spec fn argument_text(args: Seq<ExprModel>, index: int, vars: Variables) -> Seq<char> {
    if 0 <= index < args.len() {
        match args[index] {
            ExprModel::Integer(v) => decimal(v as int),
            ExprModel::Identifier(n) => match lookup(vars, n) {
                Some(ExprModel::Integer(v)) => decimal(v as int),
                _ => Seq::empty(),
            },
            _ => Seq::empty(),
        }
    } else {
        Seq::empty()
    }
}

/// What `printf` prints for the format `fmt` when its next `%d` takes the
/// argument at `index`: `%%` prints `%`, `%d` the argument's text, any other
/// `%x` prints itself, and a `%` at the very end prints `%`.
pub open spec fn printf_output(fmt: Seq<char>, args: Seq<ExprModel>, index: int, vars: Variables) -> Seq<char>
    decreases fmt.len(),
{
    if fmt.len() == 0 {
        Seq::empty()
    } else if fmt[0] != '%' {
        seq![fmt[0]] + printf_output(fmt.drop_first(), args, index, vars)
    } else if fmt.len() == 1 {
        seq!['%']
    } else if fmt[1] == '%' {
        seq!['%'] + printf_output(fmt.skip(2), args, index, vars)
    } else if fmt[1] == 'd' {
        argument_text(args, index, vars) + printf_output(fmt.skip(2), args, index + 1, vars)
    } else {
        seq!['%', fmt[1]] + printf_output(fmt.skip(2), args, index, vars)
    }
}

/// The screen that drawing goes to.
pub open spec fn current(rt: RuntimeModel) -> ScreenModel {
    match rt.current_screen {
        ScreenTarget::Top => rt.top_screen,
        ScreenTarget::Bottom => rt.bottom_screen,
    }
}

/// `rt` with its current screen replaced by `s`.
pub open spec fn with_current(rt: RuntimeModel, s: ScreenModel) -> RuntimeModel {
    match rt.current_screen {
        ScreenTarget::Top => RuntimeModel { top_screen: s, ..rt },
        ScreenTarget::Bottom => RuntimeModel { bottom_screen: s, ..rt },
    }
}

/// `s` with `pixels` drawn at the given points.
pub open spec fn draw_points(s: ScreenModel, points: Seq<(int, int)>, color: u32) -> ScreenModel {
    ScreenModel { pixels: plot_all(s.pixels, s.width, s.height, points, color), ..s }
}

/// `s` with a rectangle recorded when its corner lies on the screen.
pub open spec fn draw_rect_model(s: ScreenModel, x: usize, y: usize, w: usize, h: usize, color: u32) -> ScreenModel {
    if x < s.width && y < s.height {
        ScreenModel {
            rectangles: s.rectangles.push(crate::preview::screen::Rect { x, y, width: w, height: h, color }),
            ..s
        }
    } else {
        s
    }
}

/// The state after the call of `name` with `args`. Unknown names, and known
/// ones whose arguments do not have the expected form, change nothing.
pub open spec fn call_model(rt: RuntimeModel, name: Seq<char>, args: Seq<ExprModel>) -> RuntimeModel {
    let s = current(rt);
    let a = |i: int| integer_argument(args, i);
    if name == "gfxInitDefault"@ {
        RuntimeModel { initialized: true, ..rt }
    } else if name == "consoleInit"@ {
        let rt1 = RuntimeModel { console_initialized: true, ..rt };
        if args.len() > 0 && args[0] is Identifier {
            RuntimeModel {
                current_screen: if args[0]->Identifier_0 == "GFX_BOTTOM"@ {
                    ScreenTarget::Bottom
                } else {
                    ScreenTarget::Top
                },
                ..rt1
            }
        } else {
            rt1
        }
    } else if name == "printf"@ {
        if args.len() > 0 && args[0] is Text {
            let out = printf_output(args[0]->Text_0, args, 1, rt.variables);
            with_current(rt, ScreenModel { text: s.text + split_on(out, '\n'), ..s })
        } else {
            rt
        }
    } else if name == "gfxExit"@ {
        RuntimeModel { initialized: false, console_initialized: false, ..rt }
    } else if name == "hbvClear"@ {
        match a(0) {
            Some(c) => with_current(
                rt,
                ScreenModel {
                    background_color: c as u32,
                    pixels: Seq::empty(),
                    rectangles: Seq::empty(),
                    text: Seq::empty(),
                    ..s
                },
            ),
            None => rt,
        }
    } else if name == "hbvFillRect"@ || name == "hbvDrawRect"@ {
        if a(0) is Some && a(1) is Some && a(2) is Some && a(3) is Some && a(4) is Some {
            with_current(rt, draw_rect_model(s, a(0)->0, a(1)->0, a(2)->0, a(3)->0, a(4)->0 as u32))
        } else {
            rt
        }
    } else if name == "hbvDrawPixel"@ {
        if a(0) is Some && a(1) is Some && a(2) is Some {
            with_current(rt, ScreenModel {
                pixels: plot(s.pixels, s.width, s.height, a(0)->0 as int, a(1)->0 as int, a(2)->0 as u32),
                ..s
            })
        } else {
            rt
        }
    } else if name == "hbvDrawLine"@ {
        if a(0) is Some && a(1) is Some && a(2) is Some && a(3) is Some && a(4) is Some {
            with_current(rt, draw_points(
                s,
                line_points(signed(a(0)->0), signed(a(1)->0), signed(a(2)->0), signed(a(3)->0)),
                a(4)->0 as u32,
            ))
        } else {
            rt
        }
    } else if name == "hbvDrawCircle"@ {
        if a(0) is Some && a(1) is Some && a(2) is Some && a(3) is Some {
            with_current(rt, draw_points(
                s,
                circle_points(signed(a(0)->0), signed(a(1)->0), signed(a(2)->0)),
                a(3)->0 as u32,
            ))
        } else {
            rt
        }
    } else if name == "hbvDrawEllipse"@ {
        if a(0) is Some && a(1) is Some && a(2) is Some && a(3) is Some && a(4) is Some {
            with_current(rt, draw_points(
                s,
                wrapped(ellipse_points(signed(a(0)->0), signed(a(1)->0), signed(a(2)->0), signed(a(3)->0))),
                a(4)->0 as u32,
            ))
        } else {
            rt
        }
    } else if name == "hbvDrawTriangle"@ {
        if a(0) is Some && a(1) is Some && a(2) is Some && a(3) is Some && a(4) is Some && a(5) is Some
            && a(6) is Some {
            let (x1, y1, x2, y2, x3, y3) = (
                signed(a(0)->0),
                signed(a(1)->0),
                signed(a(2)->0),
                signed(a(3)->0),
                signed(a(4)->0),
                signed(a(5)->0),
            );
            with_current(rt, draw_points(
                s,
                line_points(x1, y1, x2, y2) + line_points(x2, y2, x3, y3) + line_points(x3, y3, x1, y1),
                a(6)->0 as u32,
            ))
        } else {
            rt
        }
    } else {
        rt
    }
}

/// A call can be run: the walk of an ellipse it draws computes only `isize`
/// values (see `ellipse_fits`), as the drawing's `isize` arithmetic needs.
pub open spec fn call_within_limits(name: Seq<char>, args: Seq<ExprModel>) -> bool {
    (name == "hbvDrawEllipse"@ && integer_argument(args, 0) is Some && integer_argument(args, 1) is Some
        && integer_argument(args, 2) is Some && integer_argument(args, 3) is Some
        && integer_argument(args, 4) is Some) ==> ellipse_fits(
        signed(integer_argument(args, 0)->0),
        signed(integer_argument(args, 1)->0),
        signed(integer_argument(args, 2)->0),
        signed(integer_argument(args, 3)->0),
    )
}

/// Every call among `stmts` can be run without overflow.
pub open spec fn within_limits(stmts: Seq<StmtModel>) -> bool {
    forall|i: int|
        0 <= i < stmts.len() ==> match #[trigger] stmts[i] {
            StmtModel::Call { name, arguments } => call_within_limits(name, arguments),
            _ => true,
        }
}

/// The state after one statement: a call runs, an assignment records the
/// variable, `return` changes nothing.
pub open spec fn step(rt: RuntimeModel, s: StmtModel) -> RuntimeModel {
    match s {
        StmtModel::Call { name, arguments } => call_model(rt, name, arguments),
        StmtModel::Variable { name, value } => RuntimeModel {
            variables: assign(rt.variables, name, value),
            ..rt
        },
        StmtModel::Return => rt,
    }
}

/// The state after running `stmts` in order.
pub open spec fn run(rt: RuntimeModel, stmts: Seq<StmtModel>) -> RuntimeModel
    decreases stmts.len(),
{
    if stmts.len() == 0 {
        rt
    } else {
        run(step(rt, stmts[0]), stmts.drop_first())
    }
}

/// The state after executing a program: its `main`, up to the first `return`.
pub open spec fn execute_model(rt: RuntimeModel, p: ProgramModel) -> RuntimeModel {
    run(rt, executed_statements(p))
}

/// The values of the recorded variables.
pub open spec fn vars_view(v: Seq<(String, Expression)>) -> Variables {
    v.map_values(|p: (String, Expression)| (p.0@, p.1@))
}

impl View for Runtime {
    type V = RuntimeModel;

    closed spec fn view(&self) -> RuntimeModel {
        RuntimeModel {
            initialized: self.initialized,
            console_initialized: self.console_initialized,
            current_screen: self.current_screen,
            top_screen: self.top_screen@,
            bottom_screen: self.bottom_screen@,
            variables: vars_view(self.variables@),
        }
    }
}

/// The state of a fresh runtime: nothing initialized, output to the top
/// screen, both screens empty and black, no variables.
pub open spec fn initial_model() -> RuntimeModel {
    RuntimeModel {
        initialized: false,
        console_initialized: false,
        current_screen: ScreenTarget::Top,
        top_screen: ScreenModel {
            width: TOP_WIDTH,
            height: TOP_HEIGHT,
            text: Seq::empty(),
            pixels: Seq::empty(),
            rectangles: Seq::empty(),
            background_color: 0,
        },
        bottom_screen: ScreenModel {
            width: BOTTOM_WIDTH,
            height: BOTTOM_HEIGHT,
            text: Seq::empty(),
            pixels: Seq::empty(),
            rectangles: Seq::empty(),
            background_color: 0,
        },
        variables: Seq::empty(),
    }
}

/// The first entry of `vars` named `name` is at `i`.
proof fn lemma_var_index_found(vars: Variables, name: Seq<char>, i: int)
    requires
        0 <= i < vars.len(),
        vars[i].0 == name,
        forall|j: int| 0 <= j < i ==> vars[j].0 != name,
    ensures
        var_index(vars, name) == i,
    decreases vars.len(),
{
    if i > 0 {
        lemma_var_index_found(vars.drop_first(), name, i - 1);
    }
}

/// No entry of `vars` is named `name`.
proof fn lemma_var_index_missing(vars: Variables, name: Seq<char>)
    requires
        forall|j: int| 0 <= j < vars.len() ==> vars[j].0 != name,
    ensures
        var_index(vars, name) == -1,
    decreases vars.len(),
{
    if vars.len() > 0 {
        lemma_var_index_missing(vars.drop_first(), name);
    }
}

impl Runtime {
    /// Both screens keep their text lines in place.
    pub closed spec fn wf(&self) -> bool {
        self.top_screen.wf() && self.bottom_screen.wf()
    }

    /// A runtime with nothing initialized, output going to the top screen,
    /// both screens empty and no variables.
    pub fn new() -> (r: Self)
        ensures
            r.wf(),
            r@ == initial_model(),
    {
        let r = Runtime {
            initialized: false,
            console_initialized: false,
            current_screen: ScreenTarget::Top,
            top_screen: VirtualScreen::new(TOP_WIDTH, TOP_HEIGHT),
            bottom_screen: VirtualScreen::new(BOTTOM_WIDTH, BOTTOM_HEIGHT),
            variables: Vec::new(),
        };
        assert(vars_view(r.variables@) =~= Seq::<(Seq<char>, ExprModel)>::empty());
        r
    }

    /// The top screen.
    pub fn top_screen(&self) -> (r: &VirtualScreen)
        ensures
            r@ == self@.top_screen,
            self.wf() ==> r.wf(),
    {
        &self.top_screen
    }

    /// The bottom screen.
    pub fn bottom_screen(&self) -> (r: &VirtualScreen)
        ensures
            r@ == self@.bottom_screen,
            self.wf() ==> r.wf(),
    {
        &self.bottom_screen
    }

    /// The position of the first variable named `name`.
    fn find_variable(&self, name: &String) -> (r: Option<usize>)
        ensures
            match r {
                Some(i) => i == var_index(self@.variables, name@) && i < self.variables@.len(),
                None => var_index(self@.variables, name@) == -1,
            },
    {
        let mut i: usize = 0;
        while i < self.variables.len()
            invariant
                i <= self.variables@.len(),
                forall|j: int| 0 <= j < i ==> self@.variables[j].0 != name@,
            decreases self.variables@.len() - i,
        {
            if self.variables[i].0 == *name {
                proof {
                    lemma_var_index_found(self@.variables, name@, i as int);
                }
                return Some(i);
            }
            i = i + 1;
        }
        proof {
            lemma_var_index_missing(self@.variables, name@);
        }
        None
    }

    /// Records `value` under `name`.
    fn assign_variable(&mut self, name: &String, value: &Expression)
        ensures
            final(self)@ == (RuntimeModel { variables: assign(old(self)@.variables, name@, value@), ..old(self)@ }),
            final(self).top_screen == old(self).top_screen,
            final(self).bottom_screen == old(self).bottom_screen,
    {
        let found = self.find_variable(name);
        let entry = (crate::ir::copy_string(name), value.copy());
        match found {
            Some(i) => {
                self.variables.set(i, entry);
                assert(vars_view(self.variables@) =~= vars_view(old(self).variables@).update(i as int, (name@, value@)));
            },
            None => {
                self.variables.push(entry);
                assert(vars_view(self.variables@) =~= vars_view(old(self).variables@).push((name@, value@)));
            },
        }
    }
}

impl Runtime {
    /// The text that `%d` prints for the argument at `index`.
    fn argument_text_exec(&self, args: &Vec<Expression>, index: usize) -> (r: Vec<char>)
        ensures
            r@ == argument_text(crate::preview::ir::exprs_view(args@), index as int, self@.variables),
    {
        if index < args.len() {
            match &args[index] {
                Expression::Integer { value } => format_i64(*value),
                Expression::Identifier { name } => match self.find_variable(name) {
                    Some(i) => match &self.variables[i].1 {
                        Expression::Integer { value } => format_i64(*value),
                        _ => Vec::new(),
                    },
                    None => Vec::new(),
                },
                _ => Vec::new(),
            }
        } else {
            Vec::new()
        }
    }

    /// What `printf` prints for the format `fmt` and the arguments `args`
    /// (the first argument being the format itself).
    fn printf_text(&self, fmt: &String, args: &Vec<Expression>) -> (r: Vec<char>)
        ensures
            r@ == printf_output(fmt@, crate::preview::ir::exprs_view(args@), 1, self@.variables),
    {
        let ghost av = crate::preview::ir::exprs_view(args@);
        let ghost vars = self@.variables;
        let f = chars_of(fmt.as_str());
        let mut out: Vec<char> = Vec::new();
        let mut i: usize = 0;
        let mut index: usize = 1;
        assert(f@.skip(0) =~= f@);
        assert(out@ + printf_output(f@, av, 1, vars) =~= printf_output(f@, av, 1, vars));
        while i < f.len()
            invariant
                i <= f@.len(),
                f@ == fmt@,
                av == crate::preview::ir::exprs_view(args@),
                vars == self@.variables,
                index <= i + 1,
                printf_output(fmt@, av, 1, vars) == out@ + printf_output(f@.skip(i as int), av, index as int, vars),
            decreases f@.len() - i,
        {
            let ghost rest = f@.skip(i as int);
            let c = f[i];
            if c != '%' {
                assert(rest.drop_first() =~= f@.skip(i + 1));
                out.push(c);
                i = i + 1;
                assert(out@ + printf_output(f@.skip(i as int), av, index as int, vars) =~= out@.drop_last() + (seq![c] + printf_output(rest.drop_first(), av, index as int, vars)));
            } else if i + 1 >= f.len() {
                assert(rest.len() == 1);
                out.push('%');
                i = i + 1;
                assert(f@.skip(i as int) =~= Seq::<char>::empty());
                assert(out@ + printf_output(f@.skip(i as int), av, index as int, vars) =~= out@.drop_last() + seq!['%']);
            } else {
                let g = f[i + 1];
                assert(rest[1] == g);
                assert(rest.skip(2) =~= f@.skip(i + 2));
                let ghost before = out@;
                let ghost old_index = index as int;
                if g == '%' {
                    out.push('%');
                    assert(out@ =~= before + seq!['%']);
                    assert(printf_output(rest, av, old_index, vars) == seq!['%'] + printf_output(rest.skip(2), av, old_index, vars));
                    assert(out@ + printf_output(rest.skip(2), av, index as int, vars) =~= before + printf_output(rest, av, old_index, vars));
                } else if g == 'd' {
                    let mut t = self.argument_text_exec(args, index);
                    assert(t@ == argument_text(av, old_index, vars));
                    let ghost tv = t@;
                    out.append(&mut t);
                    assert(out@ == before + tv);
                    index = index + 1;
                    assert(printf_output(rest, av, old_index, vars) == argument_text(av, old_index, vars) + printf_output(rest.skip(2), av, old_index + 1, vars));
                    assert(out@ == before + argument_text(av, old_index, vars));
                    assert(out@ + printf_output(rest.skip(2), av, index as int, vars) =~= before + printf_output(rest, av, old_index, vars));
                } else {
                    out.push('%');
                    out.push(g);
                    assert(out@ =~= before + seq!['%', g]);
                    assert(printf_output(rest, av, old_index, vars) == seq!['%', g] + printf_output(rest.skip(2), av, old_index, vars));
                    assert(out@ + printf_output(rest.skip(2), av, index as int, vars) =~= before + printf_output(rest, av, old_index, vars));
                }
                i = i + 2;
                assert(out@ + printf_output(f@.skip(i as int), av, index as int, vars) =~= before + printf_output(rest, av, old_index, vars));
            }
        }
        assert(f@.skip(i as int) =~= Seq::<char>::empty());
        assert(out@ + Seq::<char>::empty() =~= out@);
        out
    }
}

impl Runtime {
    /// The screen that output and drawing go to.
    fn current_screen_mut(&mut self) -> (r: &mut VirtualScreen)
        ensures
            *r == (match old(self).current_screen {
                ScreenTarget::Top => old(self).top_screen,
                ScreenTarget::Bottom => old(self).bottom_screen,
            }),
            *final(self) == (match old(self).current_screen {
                ScreenTarget::Top => Runtime { top_screen: *final(r), ..*old(self) },
                ScreenTarget::Bottom => Runtime { bottom_screen: *final(r), ..*old(self) },
            }),
    {
        match self.current_screen {
            ScreenTarget::Top => &mut self.top_screen,
            ScreenTarget::Bottom => &mut self.bottom_screen,
        }
    }

    /// Clears the current screen with `color`.
    fn clear_current(&mut self, color: u32)
        requires
            old(self).wf(),
        ensures
            final(self).wf(),
            final(self)@ == with_current(old(self)@, ScreenModel {
                background_color: color,
                pixels: Seq::empty(),
                rectangles: Seq::empty(),
                text: Seq::empty(),
                ..current(old(self)@)
            }),
    {
        let screen = self.current_screen_mut();
        screen.clear(color);
    }
}

impl Runtime {
    /// Runs the call of `name` with `args` (see `call_model`).
    #[verifier::spinoff_prover]
    #[verifier::rlimit(100)]
    fn call(&mut self, name: &String, args: &Vec<Expression>)
        requires
            old(self).wf(),
            call_within_limits(name@, crate::preview::ir::exprs_view(args@)),
        ensures
            final(self).wf(),
            final(self)@ == call_model(old(self)@, name@, crate::preview::ir::exprs_view(args@)),
    {
        let ghost av = crate::preview::ir::exprs_view(args@);
        let n = name.as_str();
        if same_text(n, "gfxInitDefault") {
            self.initialized = true;
        } else if same_text(n, "consoleInit") {
            self.console_initialized = true;
            if args.len() > 0 {
                match &args[0] {
                    Expression::Identifier { name: identifier } => {
                        self.current_screen = if same_text(identifier.as_str(), "GFX_BOTTOM") {
                            ScreenTarget::Bottom
                        } else {
                            ScreenTarget::Top
                        };
                    },
                    _ => {},
                }
            }
        } else if same_text(n, "printf") {
            if args.len() > 0 {
                match &args[0] {
                    Expression::String { value: format } => {
                        let out = self.printf_text(format, args);
                        let text = string_of(out.as_slice());
                        let screen = self.current_screen_mut();
                        screen.write_text(text.as_str());
                    },
                    _ => {},
                }
            }
        } else if same_text(n, "gfxExit") {
            self.initialized = false;
            self.console_initialized = false;
        } else if same_text(n, "hbvClear") {
            if let Some(color) = integer_arg(args, 0) {
                self.clear_current(color as u32);
            }
        } else if same_text(n, "hbvFillRect") || same_text(n, "hbvDrawRect") {
            let x = integer_arg(args, 0);
            let y = integer_arg(args, 1);
            let w = integer_arg(args, 2);
            let h = integer_arg(args, 3);
            let c = integer_arg(args, 4);
            if let (Some(x), Some(y), Some(w), Some(h), Some(c)) = (x, y, w, h, c) {
                let screen = self.current_screen_mut();
                screen.draw_rect(x, y, w, h, c as u32);
            }
        } else if same_text(n, "hbvDrawPixel") {
            let x = integer_arg(args, 0);
            let y = integer_arg(args, 1);
            let c = integer_arg(args, 2);
            if let (Some(x), Some(y), Some(c)) = (x, y, c) {
                let screen = self.current_screen_mut();
                screen.draw_pixel(x, y, c as u32);
            }
        } else if same_text(n, "hbvDrawLine") {
            let x1 = integer_arg(args, 0);
            let y1 = integer_arg(args, 1);
            let x2 = integer_arg(args, 2);
            let y2 = integer_arg(args, 3);
            let c = integer_arg(args, 4);
            if let (Some(x1), Some(y1), Some(x2), Some(y2), Some(c)) = (x1, y1, x2, y2, c) {
                let screen = self.current_screen_mut();
                screen.draw_line(x1, y1, x2, y2, c as u32);
            }
        } else if same_text(n, "hbvDrawCircle") {
            let x = integer_arg(args, 0);
            let y = integer_arg(args, 1);
            let r = integer_arg(args, 2);
            let c = integer_arg(args, 3);
            if let (Some(x), Some(y), Some(r), Some(c)) = (x, y, r, c) {
                let screen = self.current_screen_mut();
                screen.draw_circle(x, y, r, c as u32);
            }
        } else if same_text(n, "hbvDrawEllipse") {
            let x = integer_arg(args, 0);
            let y = integer_arg(args, 1);
            let rx = integer_arg(args, 2);
            let ry = integer_arg(args, 3);
            let c = integer_arg(args, 4);
            if let (Some(x), Some(y), Some(rx), Some(ry), Some(c)) = (x, y, rx, ry, c) {
                let screen = self.current_screen_mut();
                screen.draw_ellipse(x, y, rx, ry, c as u32);
            }
        } else if same_text(n, "hbvDrawTriangle") {
            let x1 = integer_arg(args, 0);
            let y1 = integer_arg(args, 1);
            let x2 = integer_arg(args, 2);
            let y2 = integer_arg(args, 3);
            let x3 = integer_arg(args, 4);
            let y3 = integer_arg(args, 5);
            let c = integer_arg(args, 6);
            if let (Some(x1), Some(y1), Some(x2), Some(y2), Some(x3), Some(y3), Some(c)) = (
                x1,
                y1,
                x2,
                y2,
                x3,
                y3,
                c,
            ) {
                let screen = self.current_screen_mut();
                screen.draw_triangle(x1, y1, x2, y2, x3, y3, c as u32);
            }
        }
    }
}

/// The index of the first function named `main`.
pub fn find_main(program: &Program) -> (r: Option<usize>)
    ensures
        match r {
            Some(m) => m < program.functions@.len() && main_index(program@) == Some(m as int),
            None => main_index(program@) is None,
        },
{
    let ghost p = program@;
    let mut k: usize = 0;
    let mut found: Option<usize> = None;
    while k < program.functions.len()
        invariant_except_break
            found is None,
        invariant
            k <= program.functions@.len(),
            p == program@,
            forall|j: int| 0 <= j < k ==> p.functions[j].name != "main"@,
        ensures
            match found {
                Some(m) => m < program.functions@.len() && p.functions[m as int].name == "main"@
                    && forall|j: int| 0 <= j < m ==> p.functions[j].name != "main"@,
                None => forall|j: int| 0 <= j < p.functions.len() ==> p.functions[j].name != "main"@,
            },
        decreases program.functions@.len() - k,
    {
        if same_text(program.functions[k].name.as_str(), "main") {
            found = Some(k);
            break;
        }
        k = k + 1;
    }
    match found {
        Some(m) => {
            assert(main_index(p) == Some(m as int)) by {
                assert(p.functions[m as int].name == "main"@);
                let c = choose|i: int|
                    0 <= i < p.functions.len() && p.functions[i].name == "main"@ && forall|j: int|
                        0 <= j < i ==> p.functions[j].name != "main"@;
                assert(0 <= c < p.functions.len() && p.functions[c].name == "main"@ && forall|j: int|
                    0 <= j < c ==> p.functions[j].name != "main"@);
                assert(c == m);
            }
        },
        None => {},
    }
    found
}

/// Whether every call that executing `program` runs stays within the range
/// of `isize`, as a call must for its arithmetic not to overflow (see
/// `call_within_limits`).
pub fn program_within_limits(program: &Program) -> (r: bool)
    ensures
        r == within_limits(executed_statements(program@)),
{
    let m = match find_main(program) {
        Some(m) => m,
        None => {
            assert(executed_statements(program@) =~= Seq::<StmtModel>::empty());
            return true;
        },
    };
    let body = &program.functions[m].body;
    let ghost stmts = crate::preview::ir::stmts_view(body@);
    let ghost all = executed_statements(program@);
    assert(all == executed_prefix(stmts));
    let mut i: usize = 0;
    assert(stmts.skip(0) =~= stmts);
    while i < body.len()
        invariant
            i <= body@.len(),
            stmts == crate::preview::ir::stmts_view(body@),
            all == executed_statements(program@),
            within_limits(all) == within_limits(executed_prefix(stmts.skip(i as int))),
        ensures
            executed_prefix(stmts.skip(i as int)) == Seq::<StmtModel>::empty(),
        decreases body@.len() - i,
    {
        let ghost rest = stmts.skip(i as int);
        assert(rest[0] == body@[i as int]@);
        assert(rest.drop_first() =~= stmts.skip(i + 1));
        let tail_ok = match &body[i] {
            Statement::Return => {
                assert(executed_prefix(rest) =~= Seq::<StmtModel>::empty());
                break;
            },
            Statement::Call { name, arguments } => {
                proof {
                    lemma_within_limits_split(rest[0], executed_prefix(rest.drop_first()));
                }
                call_within_limits_exec(name, arguments)
            },
            Statement::Variable { .. } => {
                proof {
                    lemma_within_limits_split(rest[0], executed_prefix(rest.drop_first()));
                }
                true
            },
        };
        if !tail_ok {
            return false;
        }
        i = i + 1;
        if i == body.len() {
            assert(stmts.skip(i as int) =~= Seq::<StmtModel>::empty());
        }
    }
    true
}

/// Whether the call of `name` with `args` is within the limits.
fn call_within_limits_exec(name: &String, args: &Vec<Expression>) -> (r: bool)
    ensures
        r == call_within_limits(name@, crate::preview::ir::exprs_view(args@)),
{
    if !same_text(name.as_str(), "hbvDrawEllipse") {
        return true;
    }
    match (integer_arg(args, 0), integer_arg(args, 1), integer_arg(args, 2), integer_arg(args, 3), integer_arg(args, 4)) {
        (Some(x), Some(y), Some(rx), Some(ry), Some(_)) => ellipse_in_range(x, y, rx, ry),
        _ => true,
    }
}

/// The calls of a sequence that starts with `s` are within the limits exactly
/// when the call `s` is and those of the rest are.
proof fn lemma_within_limits_split(s: StmtModel, rest: Seq<StmtModel>)
    ensures
        within_limits(seq![s] + rest) == (within_limits(rest) && match s {
            StmtModel::Call { name, arguments } => call_within_limits(name, arguments),
            _ => true,
        }),
{
    let all = seq![s] + rest;
    assert(all[0] == s);
    assert forall|i: int| 0 <= i < rest.len() implies #[trigger] rest[i] == all[i + 1] by {}
    if within_limits(rest) && match s {
        StmtModel::Call { name, arguments } => call_within_limits(name, arguments),
        _ => true,
    } {
        assert forall|i: int| 0 <= i < all.len() implies match #[trigger] all[i] {
            StmtModel::Call { name, arguments } => call_within_limits(name, arguments),
            _ => true,
        } by {
            if i > 0 {
                assert(all[i] == rest[i - 1]);
            }
        }
    }
    if within_limits(all) {
        lemma_within_limits_cons(s, rest);
    }
}

/// Running a statement and then the rest.
proof fn lemma_run_cons(rt: RuntimeModel, s: StmtModel, rest: Seq<StmtModel>)
    ensures
        run(rt, seq![s] + rest) == run(step(rt, s), rest),
{
    assert((seq![s] + rest).drop_first() =~= rest);
}

/// The calls of a sequence that starts with `s` are within the limits when
/// those of the whole sequence are.
proof fn lemma_within_limits_cons(s: StmtModel, rest: Seq<StmtModel>)
    requires
        within_limits(seq![s] + rest),
    ensures
        within_limits(rest),
        match s {
            StmtModel::Call { name, arguments } => call_within_limits(name, arguments),
            _ => true,
        },
{
    assert((seq![s] + rest)[0] == s);
    assert forall|i: int| 0 <= i < rest.len() implies match #[trigger] rest[i] {
        StmtModel::Call { name, arguments } => call_within_limits(name, arguments),
        _ => true,
    } by {
        assert((seq![s] + rest)[i + 1] == rest[i]);
    }
}

impl Runtime {
    /// Runs the first function named `main`, statement by statement, until
    /// its first `return`: calls run (see `call_model`), assignments record
    /// the variable. A program without `main` changes nothing. No ellipse it
    /// draws may leave the range of `isize` (see `program_within_limits`):
    /// there, the drawing's arithmetic overflows.
    pub fn execute(&mut self, program: &Program)
        requires
            old(self).wf(),
            within_limits(executed_statements(program@)),
        ensures
            final(self).wf(),
            final(self)@ == execute_model(old(self)@, program@),
    {
        let ghost p = program@;
        let m = match find_main(program) {
            Some(m) => m,
            None => {
                assert(executed_statements(p) =~= Seq::<StmtModel>::empty());
                return;
            },
        };
        let body = &program.functions[m].body;
        let ghost stmts = crate::preview::ir::stmts_view(body@);
        assert(stmts == p.functions[m as int].body);
        let ghost target = execute_model(old(self)@, p);
        let mut i: usize = 0;
        assert(stmts.skip(0) =~= stmts);
        while i < body.len()
            invariant
                i <= body@.len(),
                stmts == crate::preview::ir::stmts_view(body@),
                self.wf(),
                run(self@, executed_prefix(stmts.skip(i as int))) == target,
                within_limits(executed_prefix(stmts.skip(i as int))),
            ensures
                executed_prefix(stmts.skip(i as int)) == Seq::<StmtModel>::empty(),
            decreases body@.len() - i,
        {
            let ghost rest = stmts.skip(i as int);
            assert(rest[0] == body@[i as int]@);
            assert(rest.drop_first() =~= stmts.skip(i + 1));
            match &body[i] {
                Statement::Return => {
                    assert(executed_prefix(rest) =~= Seq::<StmtModel>::empty());
                    break;
                },
                Statement::Call { name, arguments } => {
                    proof {
                        lemma_run_cons(self@, rest[0], executed_prefix(rest.drop_first()));
                        lemma_within_limits_cons(rest[0], executed_prefix(rest.drop_first()));
                    }
                    self.call(name, arguments);
                },
                Statement::Variable { name, value } => {
                    proof {
                        lemma_run_cons(self@, rest[0], executed_prefix(rest.drop_first()));
                        lemma_within_limits_cons(rest[0], executed_prefix(rest.drop_first()));
                    }
                    self.assign_variable(name, value);
                },
            }
            i = i + 1;
            if i == body.len() {
                assert(stmts.skip(i as int) =~= Seq::<StmtModel>::empty());
            }
        }
        assert(run(self@, Seq::<StmtModel>::empty()) == self@);
    }
}

/// The argument at `index` as a `usize`, when it is an integer literal that
/// fits one.
fn integer_arg(args: &Vec<Expression>, index: usize) -> (r: Option<usize>)
    ensures
        r == integer_argument(crate::preview::ir::exprs_view(args@), index as int),
{
    if index < args.len() {
        match &args[index] {
            Expression::Integer { value } => {
                if *value >= 0 && (*value as u64) <= (usize::MAX as u64) {
                    Some(*value as usize)
                } else {
                    None
                }
            },
            _ => None,
        }
    } else {
        None
    }
}

/// Where `var_index` points: the first entry with the name, or -1 when no
/// entry has it.
proof fn lemma_var_index(vars: Variables, name: Seq<char>)
    ensures
        -1 <= var_index(vars, name) < vars.len(),
        var_index(vars, name) >= 0 ==> vars[var_index(vars, name)].0 == name,
        forall|j: int| 0 <= j < vars.len() && (j < var_index(vars, name) || var_index(vars, name) == -1)
            ==> #[trigger] vars[j].0 != name,
    decreases vars.len(),
{
    if vars.len() > 0 && vars[0].0 != name {
        lemma_var_index(vars.drop_first(), name);
        assert forall|j: int| 0 < j < vars.len() implies #[trigger] vars[j].0 == vars.drop_first()[j - 1].0 by {}
    }
}

/// A variable reads back the last value assigned to it, and assigning one
/// variable leaves every other variable as it was.
pub proof fn lemma_assign_then_lookup(vars: Variables, name: Seq<char>, value: ExprModel, other: Seq<char>)
    ensures
        lookup(assign(vars, name, value), name) == Some(value),
        other != name ==> lookup(assign(vars, name, value), other) == lookup(vars, other),
{
    lemma_var_index(vars, name);
    lemma_var_index(vars, other);
    let i = var_index(vars, name);
    let after = assign(vars, name, value);
    if 0 <= i {
        assert forall|j: int| 0 <= j < i implies #[trigger] after[j].0 != name by {
            assert(after[j] == vars[j]);
        }
        lemma_var_index_found(after, name, i);
        if other != name {
            let k = var_index(vars, other);
            if k >= 0 {
                assert forall|j: int| 0 <= j < k implies #[trigger] after[j].0 != other by {
                    if j != i { assert(after[j] == vars[j]); }
                }
                if k != i { assert(after[k] == vars[k]); }
                lemma_var_index_found(after, other, k);
            } else {
                assert forall|j: int| 0 <= j < after.len() implies #[trigger] after[j].0 != other by {
                    if j != i { assert(after[j] == vars[j]); }
                }
                lemma_var_index_missing(after, other);
            }
        }
    } else {
        assert forall|j: int| 0 <= j < vars.len() implies #[trigger] after[j].0 != name by {
            assert(after[j] == vars[j]);
        }
        lemma_var_index_found(after, name, vars.len() as int);
        if other != name {
            let k = var_index(vars, other);
            if k >= 0 {
                assert forall|j: int| 0 <= j < k implies #[trigger] after[j].0 != other by {
                    assert(after[j] == vars[j]);
                }
                assert(after[k] == vars[k]);
                lemma_var_index_found(after, other, k);
            } else {
                assert forall|j: int| 0 <= j < after.len() implies #[trigger] after[j].0 != other by {
                    if j < vars.len() { assert(after[j] == vars[j]); }
                }
                lemma_var_index_missing(after, other);
            }
        }
    }
}

/// A format without `%` prints itself.
pub proof fn lemma_printf_plain_text(fmt: Seq<char>, args: Seq<ExprModel>, index: int, vars: Variables)
    requires
        !fmt.contains('%'),
    ensures
        printf_output(fmt, args, index, vars) == fmt,
    decreases fmt.len(),
{
    if fmt.len() > 0 {
        assert(fmt[0] != '%');
        assert forall|c: char| fmt.drop_first().contains(c) implies fmt.contains(c) by {
            let j = choose|j: int| 0 <= j < fmt.drop_first().len() && fmt.drop_first()[j] == c;
            assert(fmt[j + 1] == c);
        }
        lemma_printf_plain_text(fmt.drop_first(), args, index, vars);
        assert(seq![fmt[0]] + fmt.drop_first() =~= fmt);
    }
}

/// Every recorded pixel of `s` lies on it.
pub open spec fn pixels_on_screen(s: ScreenModel) -> bool {
    forall|i: int| 0 <= i < s.pixels.len() ==> (#[trigger] s.pixels[i]).x < s.width && s.pixels[i].y < s.height
}

/// The screens are the console's own: 400 by 240 on top, 320 by 240 below,
/// and each pixel they record lies on them.
pub open spec fn screens_sound(rt: RuntimeModel) -> bool {
    &&& rt.top_screen.width == TOP_WIDTH && rt.top_screen.height == TOP_HEIGHT
    &&& rt.bottom_screen.width == BOTTOM_WIDTH && rt.bottom_screen.height == BOTTOM_HEIGHT
    &&& pixels_on_screen(rt.top_screen)
    &&& pixels_on_screen(rt.bottom_screen)
}

/// Drawing points keeps every pixel on the screen.
proof fn lemma_draw_points_sound(s: ScreenModel, points: Seq<(int, int)>, color: u32)
    requires
        pixels_on_screen(s),
    ensures
        pixels_on_screen(draw_points(s, points, color)),
{
    crate::preview::screen::lemma_plot_all_on_screen(s.pixels, s.width, s.height, points, color);
    let after = plot_all(s.pixels, s.width, s.height, points, color);
    assert forall|i: int| 0 <= i < after.len() implies (#[trigger] after[i]).x < s.width && after[i].y < s.height by {
        if i < s.pixels.len() {
            assert(after.subrange(0, s.pixels.len() as int)[i] == after[i]);
        }
    }
}

/// Replacing the current screen by one of the same size whose pixels lie on it.
proof fn lemma_with_current_sound(rt: RuntimeModel, s: ScreenModel)
    requires
        screens_sound(rt),
        s.width == current(rt).width,
        s.height == current(rt).height,
        pixels_on_screen(s),
    ensures
        screens_sound(with_current(rt, s)),
{
}

/// No call changes the size of a screen or records a pixel off it.
pub proof fn lemma_call_keeps_screens_sound(rt: RuntimeModel, name: Seq<char>, args: Seq<ExprModel>)
    requires
        screens_sound(rt),
    ensures
        screens_sound(call_model(rt, name, args)),
{
    let s = current(rt);
    let a = |i: int| integer_argument(args, i);
    assert(pixels_on_screen(s));
    if name == "hbvClear"@ {
        if a(0) is Some {
            let t = ScreenModel {
                background_color: a(0)->0 as u32,
                pixels: Seq::empty(),
                rectangles: Seq::empty(),
                text: Seq::empty(),
                ..s
            };
            lemma_with_current_sound(rt, t);
        }
    } else if name == "hbvDrawPixel"@ {
        if a(0) is Some && a(1) is Some && a(2) is Some {
            let after = plot(s.pixels, s.width, s.height, a(0)->0 as int, a(1)->0 as int, a(2)->0 as u32);
            assert forall|i: int| 0 <= i < after.len() implies (#[trigger] after[i]).x < s.width && after[i].y < s.height by {
                if i < s.pixels.len() {
                    assert(after[i] == s.pixels[i]);
                }
            }
            lemma_with_current_sound(rt, ScreenModel { pixels: after, ..s });
        }
    } else if name == "hbvDrawLine"@ {
        if a(0) is Some && a(1) is Some && a(2) is Some && a(3) is Some && a(4) is Some {
            lemma_draw_points_sound(s, line_points(signed(a(0)->0), signed(a(1)->0), signed(a(2)->0), signed(a(3)->0)), a(4)->0 as u32);
        }
    } else if name == "hbvDrawCircle"@ {
        if a(0) is Some && a(1) is Some && a(2) is Some && a(3) is Some {
            lemma_draw_points_sound(s, circle_points(signed(a(0)->0), signed(a(1)->0), signed(a(2)->0)), a(3)->0 as u32);
        }
    } else if name == "hbvDrawEllipse"@ {
        if a(0) is Some && a(1) is Some && a(2) is Some && a(3) is Some && a(4) is Some {
            lemma_draw_points_sound(s, wrapped(ellipse_points(signed(a(0)->0), signed(a(1)->0), signed(a(2)->0), signed(a(3)->0))), a(4)->0 as u32);
        }
    } else if name == "hbvDrawTriangle"@ {
        if a(0) is Some && a(1) is Some && a(2) is Some && a(3) is Some && a(4) is Some && a(5) is Some
            && a(6) is Some {
            let (x1, y1, x2, y2, x3, y3) = (
                signed(a(0)->0),
                signed(a(1)->0),
                signed(a(2)->0),
                signed(a(3)->0),
                signed(a(4)->0),
                signed(a(5)->0),
            );
            lemma_draw_points_sound(s, line_points(x1, y1, x2, y2) + line_points(x2, y2, x3, y3) + line_points(x3, y3, x1, y1), a(6)->0 as u32);
        }
    }
}

/// Running statements keeps the screens sound.
pub proof fn lemma_run_keeps_screens_sound(rt: RuntimeModel, stmts: Seq<StmtModel>)
    requires
        screens_sound(rt),
    ensures
        screens_sound(run(rt, stmts)),
    decreases stmts.len(),
{
    if stmts.len() > 0 {
        match stmts[0] {
            StmtModel::Call { name, arguments } => lemma_call_keeps_screens_sound(rt, name, arguments),
            _ => {},
        }
        lemma_run_keeps_screens_sound(step(rt, stmts[0]), stmts.drop_first());
    }
}

/// Whatever program a fresh runtime executes, both screens keep the
/// console's sizes and every pixel drawn lies on its screen.
pub proof fn lemma_execute_keeps_screens_sound(p: ProgramModel)
    ensures
        screens_sound(execute_model(initial_model(), p)),
{
    lemma_run_keeps_screens_sound(initial_model(), executed_statements(p));
}

/// A program without `main` changes nothing.
pub proof fn lemma_no_main_no_effect(rt: RuntimeModel, p: ProgramModel)
    requires
        main_index(p) is None,
    ensures
        execute_model(rt, p) == rt,
{
}

/// `consoleInit` selects the screen its first argument names: the bottom
/// screen for `GFX_BOTTOM`, the top screen for any other identifier, whatever
/// screen was selected before; the screens themselves are left as they were,
/// and the text `printf` writes next lands on the selected screen only.
pub proof fn lemma_console_init_selects_screen(rt: RuntimeModel, screen: Seq<char>, rest: Seq<ExprModel>, text: Seq<char>)
    ensures
        ({
            let after = call_model(rt, "consoleInit"@, seq![ExprModel::Identifier(screen)] + rest);
            let printed = call_model(after, "printf"@, seq![ExprModel::Text(text)]);
            let out = split_on(printf_output(text, seq![ExprModel::Text(text)], 1, rt.variables), '\n');
            &&& after.console_initialized
            &&& after.top_screen == rt.top_screen
            &&& after.bottom_screen == rt.bottom_screen
            &&& after.current_screen == if screen == "GFX_BOTTOM"@ { ScreenTarget::Bottom } else { ScreenTarget::Top }
            &&& screen != "GFX_BOTTOM"@ ==> printed.top_screen.text == rt.top_screen.text + out
                && printed.bottom_screen == rt.bottom_screen
            &&& screen == "GFX_BOTTOM"@ ==> printed.bottom_screen.text == rt.bottom_screen.text + out
                && printed.top_screen == rt.top_screen
        }),
{
    reveal_strlit("gfxInitDefault");
    reveal_strlit("consoleInit");
    reveal_strlit("printf");
    assert("gfxInitDefault"@.len() == 14 && "consoleInit"@.len() == 11 && "printf"@.len() == 6);
    let args = seq![ExprModel::Identifier(screen)] + rest;
    assert(args[0] == ExprModel::Identifier(screen));
    let t = seq![ExprModel::Text(text)];
    assert(t[0] == ExprModel::Text(text));
}

} // verus!
