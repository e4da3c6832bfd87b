use vstd::prelude::*;
use crate::input::{InputState, frame_begun, pressed, released};
use crate::ir::{Expression, ExprModel, Program, ProgramModel, Statement, StmtModel, executed_prefix, executed_statements, exprs_view, find_main, stmts_view};
use crate::preview::runtime::ScreenTarget;
use crate::screen::{
    BOTTOM_HEIGHT,
    BOTTOM_WIDTH,
    ScreenState,
    TOP_HEIGHT,
    TOP_WIDTH,
    VirtualScreen,
    pixel_set,
    rect_filled,
};
use crate::text::{same_text, split_on};

verus! {

/// The abstract state of the desktop runtime.
pub struct RuntimeModel {
    pub initialized: bool,
    pub console_initialized: bool,
    pub current_screen: ScreenTarget,
    pub top_screen: ScreenState,
    pub bottom_screen: ScreenState,
    pub input: InputState,
}

/// Runs the `main` of a program on two framebuffer screens, with the state of
/// the console's buttons.
pub struct Runtime {
    initialized: bool,
    console_initialized: bool,
    current_screen: ScreenTarget,
    top_screen: VirtualScreen,
    bottom_screen: VirtualScreen,
    input: InputState,
}

impl View for Runtime {
    type V = RuntimeModel;

    closed spec fn view(&self) -> RuntimeModel {
        RuntimeModel {
            initialized: self.initialized,
            console_initialized: self.console_initialized,
            current_screen: self.current_screen,
            top_screen: self.top_screen@,
            bottom_screen: self.bottom_screen@,
            input: self.input,
        }
    }
}

/// The screen that output and drawing go to.
pub open spec fn current(rt: RuntimeModel) -> ScreenState {
    match rt.current_screen {
        ScreenTarget::Top => rt.top_screen,
        ScreenTarget::Bottom => rt.bottom_screen,
    }
}

/// `rt` with its current screen replaced by `s`.
pub open spec fn with_current(rt: RuntimeModel, s: ScreenState) -> RuntimeModel {
    match rt.current_screen {
        ScreenTarget::Top => RuntimeModel { top_screen: s, ..rt },
        ScreenTarget::Bottom => RuntimeModel { bottom_screen: s, ..rt },
    }
}

/// An integer argument, made non-negative and cast to `usize`.
pub open spec fn coordinate(v: i64) -> usize {
    (if v < 0 { 0 } else { v }) as usize
}

/// The integer arguments at 0..`n`, when all of them are integer literals.
pub open spec fn integers(args: Seq<ExprModel>, n: int) -> bool {
    n <= args.len() && forall|i: int| 0 <= i < n ==> #[trigger] args[i] is Integer
}

/// The integer at `i`.
pub open spec fn int_at(args: Seq<ExprModel>, i: int) -> i64 {
    args[i]->Integer_0
}

/// The state after the call of `name` with `args`. Unknown names, and known
/// ones whose arguments do not have the expected form, change nothing.
pub open spec fn call_model(rt: RuntimeModel, name: Seq<char>, args: Seq<ExprModel>) -> RuntimeModel {
    let s = current(rt);
    if name == "gfxInitDefault"@ {
        RuntimeModel { initialized: true, ..rt }
    } else if name == "consoleInit"@ {
        let rt1 = RuntimeModel { console_initialized: true, ..rt };
        if args.len() > 0 && args[0] is Identifier {
            RuntimeModel {
                current_screen: if args[0]->Identifier_0 == "GFX_BOTTOM"@ {
                    ScreenTarget::Bottom
                } else {
                    ScreenTarget::Top
                },
                ..rt1
            }
        } else {
            rt1
        }
    } else if name == "printf"@ {
        if args.len() > 0 && args[0] is Text {
            with_current(rt, ScreenState { text: s.text + split_on(args[0]->Text_0, '\n'), ..s })
        } else {
            rt
        }
    } else if name == "gfxExit"@ {
        RuntimeModel { initialized: false, console_initialized: false, ..rt }
    } else if name == "hbvClear"@ {
        if integers(args, 1) {
            let c = int_at(args, 0) as u32;
            with_current(rt, ScreenState {
                pixels: Seq::new(s.pixels.len(), |i: int| c),
                text: Seq::empty(),
                ..s
            })
        } else {
            rt
        }
    } else if name == "hbvDrawPixel"@ {
        if integers(args, 3) {
            with_current(rt, ScreenState {
                pixels: pixel_set(
                    s.pixels,
                    s.width,
                    s.height,
                    coordinate(int_at(args, 0)) as int,
                    coordinate(int_at(args, 1)) as int,
                    int_at(args, 2) as u32,
                ),
                ..s
            })
        } else {
            rt
        }
    } else if name == "hbvDrawRect"@ {
        if integers(args, 5) {
            with_current(rt, ScreenState {
                pixels: rect_filled(
                    s.pixels,
                    s.width,
                    coordinate(int_at(args, 0)) as int,
                    coordinate(int_at(args, 1)) as int,
                    coordinate(int_at(args, 2)) as int,
                    coordinate(int_at(args, 3)) as int,
                    int_at(args, 4) as u32,
                ),
                ..s
            })
        } else {
            rt
        }
    } else if name == "hidScanInput"@ {
        RuntimeModel { input: frame_begun(rt.input), ..rt }
    } else {
        rt
    }
}

/// A call can be run: a rectangle it fills has a right and a bottom edge that
/// fit in a `usize`.
pub open spec fn call_fits(name: Seq<char>, args: Seq<ExprModel>) -> bool {
    (name == "hbvDrawRect"@ && integers(args, 5)) ==> (coordinate(int_at(args, 0)) + coordinate(int_at(args, 2)) <= usize::MAX
        && coordinate(int_at(args, 1)) + coordinate(int_at(args, 3)) <= usize::MAX)
}

/// Every call among `stmts` can be run.
pub open spec fn calls_fit(stmts: Seq<StmtModel>) -> bool {
    forall|i: int|
        0 <= i < stmts.len() ==> match #[trigger] stmts[i] {
            StmtModel::Call { name, arguments } => call_fits(name, arguments),
            _ => true,
        }
}

/// The state after one statement: a call runs; assignments and `return`
/// change nothing.
pub open spec fn step(rt: RuntimeModel, s: StmtModel) -> RuntimeModel {
    match s {
        StmtModel::Call { name, arguments } => call_model(rt, name, arguments),
        _ => rt,
    }
}

/// The state after running `stmts` in order.
pub open spec fn run(rt: RuntimeModel, stmts: Seq<StmtModel>) -> RuntimeModel
    decreases stmts.len(),
{
    if stmts.len() == 0 {
        rt
    } else {
        run(step(rt, stmts[0]), stmts.drop_first())
    }
}

/// The names of the variables that `stmts` assign, in order.
pub open spec fn assigned_names(stmts: Seq<StmtModel>) -> Seq<Seq<char>>
    decreases stmts.len(),
{
    if stmts.len() == 0 {
        Seq::empty()
    } else {
        match stmts[0] {
            StmtModel::Variable { name, .. } => seq![name] + assigned_names(stmts.drop_first()),
            _ => assigned_names(stmts.drop_first()),
        }
    }
}

/// The state after executing a program: its `main`, up to the first `return`.
pub open spec fn execute_model(rt: RuntimeModel, p: ProgramModel) -> RuntimeModel {
    run(rt, executed_statements(p))
}

/// The state of a fresh runtime: nothing initialized, output to the top
/// screen, both framebuffers opaque black with no text, no key held.
pub open spec fn initial_state(rt: RuntimeModel) -> bool {
    &&& !rt.initialized
    &&& !rt.console_initialized
    &&& rt.current_screen == ScreenTarget::Top
    &&& rt.top_screen.width == TOP_WIDTH && rt.top_screen.height == TOP_HEIGHT
    &&& rt.bottom_screen.width == BOTTOM_WIDTH && rt.bottom_screen.height == BOTTOM_HEIGHT
    &&& rt.top_screen.pixels == Seq::new((TOP_WIDTH * TOP_HEIGHT) as nat, |i: int| crate::screen::BLACK)
    &&& rt.bottom_screen.pixels == Seq::new((BOTTOM_WIDTH * BOTTOM_HEIGHT) as nat, |i: int| crate::screen::BLACK)
    &&& rt.top_screen.text.len() == 0 && rt.bottom_screen.text.len() == 0
    &&& rt.input.held == 0 && rt.input.down == 0
}

/// Running a statement and then the rest.
proof fn lemma_run_cons(rt: RuntimeModel, s: StmtModel, rest: Seq<StmtModel>)
    ensures
        run(rt, seq![s] + rest) == run(step(rt, s), rest),
        assigned_names(seq![s] + rest) == match s {
            StmtModel::Variable { name, .. } => seq![name] + assigned_names(rest),
            _ => assigned_names(rest),
        },
{
    assert((seq![s] + rest).drop_first() =~= rest);
}

/// The calls of a sequence that starts with `s` fit exactly when the call `s`
/// fits and those of the rest do.
proof fn lemma_calls_fit_split(s: StmtModel, rest: Seq<StmtModel>)
    ensures
        calls_fit(seq![s] + rest) == (calls_fit(rest) && match s {
            StmtModel::Call { name, arguments } => call_fits(name, arguments),
            _ => true,
        }),
{
    let all = seq![s] + rest;
    assert(all[0] == s);
    assert forall|i: int| 0 <= i < rest.len() implies #[trigger] rest[i] == all[i + 1] by {}
    if calls_fit(rest) && match s {
        StmtModel::Call { name, arguments } => call_fits(name, arguments),
        _ => true,
    } {
        assert forall|i: int| 0 <= i < all.len() implies match #[trigger] all[i] {
            StmtModel::Call { name, arguments } => call_fits(name, arguments),
            _ => true,
        } by {
            if i > 0 {
                assert(all[i] == rest[i - 1]);
            }
        }
    }
    if calls_fit(all) {
        assert forall|i: int| 0 <= i < rest.len() implies match #[trigger] rest[i] {
            StmtModel::Call { name, arguments } => call_fits(name, arguments),
            _ => true,
        } by {
            assert(all[i + 1] == rest[i]);
        }
    }
}

/// An integer argument made non-negative and cast to `usize`.
fn coordinate_of(v: i64) -> (r: usize)
    ensures
        r == coordinate(v),
{
    (if v < 0 { 0 } else { v }) as usize
}

/// Whether the first `n` arguments are integer literals.
fn integers_exec(args: &Vec<Expression>, n: usize) -> (r: bool)
    ensures
        r == integers(exprs_view(args@), n as int),
{
    if n > args.len() {
        return false;
    }
    let mut i: usize = 0;
    while i < n
        invariant
            n <= args@.len(),
            i <= n,
            forall|j: int| 0 <= j < i ==> #[trigger] exprs_view(args@)[j] is Integer,
        decreases n - i,
    {
        match &args[i] {
            Expression::Integer(_) => {},
            _ => {
                assert(!(exprs_view(args@)[i as int] is Integer));
                return false;
            },
        }
        i = i + 1;
    }
    true
}

/// The integer at `i`, known to be an integer literal.
fn int_arg(args: &Vec<Expression>, i: usize) -> (r: i64)
    requires
        i < args@.len(),
        exprs_view(args@)[i as int] is Integer,
    ensures
        r == int_at(exprs_view(args@), i as int),
{
    match &args[i] {
        Expression::Integer(v) => *v,
        _ => 0,
    }
}

impl Runtime {
    /// Both screens have a framebuffer of their size and keep their text
    /// lines in place.
    pub closed spec fn wf(&self) -> bool {
        self.top_screen.wf() && self.bottom_screen.wf()
    }

    /// A runtime with nothing initialized, output going to the top screen,
    /// both screens opaque black with no text, and no key held.
    pub fn new() -> (r: Self)
        ensures
            r.wf(),
            initial_state(r@),
    {
        let r = Runtime {
            initialized: false,
            console_initialized: false,
            current_screen: ScreenTarget::Top,
            top_screen: VirtualScreen::new(TOP_WIDTH, TOP_HEIGHT),
            bottom_screen: VirtualScreen::new(BOTTOM_WIDTH, BOTTOM_HEIGHT),
            input: InputState::new(),
        };
        assert(r.top_screen.pixels@ =~= Seq::new((TOP_WIDTH * TOP_HEIGHT) as nat, |i: int| crate::screen::BLACK));
        assert(r.bottom_screen.pixels@ =~= Seq::new((BOTTOM_WIDTH * BOTTOM_HEIGHT) as nat, |i: int| crate::screen::BLACK));
        r
    }

    /// The top screen.
    pub fn top_screen(&self) -> (r: &VirtualScreen)
        ensures
            r@ == self@.top_screen,
            self.wf() ==> r.wf(),
    {
        &self.top_screen
    }

    /// The bottom screen.
    pub fn bottom_screen(&self) -> (r: &VirtualScreen)
        ensures
            r@ == self@.bottom_screen,
            self.wf() ==> r.wf(),
    {
        &self.bottom_screen
    }

    /// Starts a new frame of input.
    pub fn begin_frame(&mut self)
        ensures
            final(self)@ == (RuntimeModel { input: frame_begun(old(self)@.input), ..old(self)@ }),
            final(self).wf() == old(self).wf(),
    {
        self.input.begin_frame();
    }

    /// Presses the keys whose bits are set in `key`.
    pub fn press_key(&mut self, key: u32)
        ensures
            final(self)@ == (RuntimeModel { input: pressed(old(self)@.input, key), ..old(self)@ }),
            final(self).wf() == old(self).wf(),
    {
        self.input.press(key);
    }

    /// Releases the keys whose bits are set in `key`.
    pub fn release_key(&mut self, key: u32)
        ensures
            final(self)@ == (RuntimeModel { input: released(old(self)@.input, key), ..old(self)@ }),
            final(self).wf() == old(self).wf(),
    {
        self.input.release(key);
    }

    /// The keys pressed since the current frame began.
    pub fn keys_down(&self) -> (r: u32)
        ensures
            r == self@.input.down,
    {
        self.input.keys_down()
    }

    /// The keys currently held.
    pub fn keys_held(&self) -> (r: u32)
        ensures
            r == self@.input.held,
    {
        self.input.keys_held()
    }

    /// The screen that output and drawing go to.
    fn current_screen_mut(&mut self) -> (r: &mut VirtualScreen)
        ensures
            *r == (match old(self).current_screen {
                ScreenTarget::Top => old(self).top_screen,
                ScreenTarget::Bottom => old(self).bottom_screen,
            }),
            *final(self) == (match old(self).current_screen {
                ScreenTarget::Top => Runtime { top_screen: *final(r), ..*old(self) },
                ScreenTarget::Bottom => Runtime { bottom_screen: *final(r), ..*old(self) },
            }),
    {
        match self.current_screen {
            ScreenTarget::Top => &mut self.top_screen,
            ScreenTarget::Bottom => &mut self.bottom_screen,
        }
    }

    /// Runs the call of `name` with `args` (see `call_model`).
    #[verifier::spinoff_prover]
    #[verifier::rlimit(60)]
    fn call(&mut self, name: &String, args: &Vec<Expression>)
        requires
            old(self).wf(),
            call_fits(name@, exprs_view(args@)),
        ensures
            final(self).wf(),
            final(self)@ == call_model(old(self)@, name@, exprs_view(args@)),
    {
        let n = name.as_str();
        if same_text(n, "gfxInitDefault") {
            self.initialized = true;
        } else if same_text(n, "consoleInit") {
            self.console_initialized = true;
            if args.len() > 0 {
                match &args[0] {
                    Expression::Identifier(identifier) => {
                        self.current_screen = if same_text(identifier.as_str(), "GFX_BOTTOM") {
                            ScreenTarget::Bottom
                        } else {
                            ScreenTarget::Top
                        };
                    },
                    _ => {},
                }
            }
        } else if same_text(n, "printf") {
            if args.len() > 0 {
                match &args[0] {
                    Expression::String(text) => {
                        let screen = self.current_screen_mut();
                        screen.write_text(text.as_str());
                    },
                    _ => {},
                }
            }
        } else if same_text(n, "gfxExit") {
            self.initialized = false;
            self.console_initialized = false;
        } else if same_text(n, "hbvClear") {
            if integers_exec(args, 1) {
                let color = int_arg(args, 0) as u32;
                let screen = self.current_screen_mut();
                screen.clear_color(color);
            }
        } else if same_text(n, "hbvDrawPixel") {
            if integers_exec(args, 3) {
                let x = coordinate_of(int_arg(args, 0));
                let y = coordinate_of(int_arg(args, 1));
                let color = int_arg(args, 2) as u32;
                let screen = self.current_screen_mut();
                screen.set_pixel(x, y, color);
            }
        } else if same_text(n, "hbvDrawRect") {
            if integers_exec(args, 5) {
                let x = coordinate_of(int_arg(args, 0));
                let y = coordinate_of(int_arg(args, 1));
                let w = coordinate_of(int_arg(args, 2));
                let h = coordinate_of(int_arg(args, 3));
                let color = int_arg(args, 4) as u32;
                let screen = self.current_screen_mut();
                screen.draw_rect(x, y, w, h, color);
            }
        } else if same_text(n, "hidScanInput") {
            self.input.begin_frame();
        }
    }

    /// Runs the first function named `main`, statement by statement, until
    /// its first `return` (see `call_model`); a program without `main`
    /// changes nothing. Returns the names of the variables the run statements
    /// assign, in order, for the caller to report.
    pub fn execute(&mut self, program: &Program) -> (names: Vec<String>)
        requires
            old(self).wf(),
            calls_fit(executed_statements(program@)),
        ensures
            final(self).wf(),
            final(self)@ == execute_model(old(self)@, program@),
            names@.map_values(|s: String| s@) == assigned_names(executed_statements(program@)),
    {
        let ghost p = program@;
        let mut names: Vec<String> = Vec::new();
        let m = match find_main(program) {
            Some(m) => m,
            None => {
                assert(executed_statements(p) =~= Seq::<StmtModel>::empty());
                assert(names@.map_values(|s: String| s@) =~= Seq::<Seq<char>>::empty());
                return names;
            },
        };
        let body = &program.functions[m].body;
        let ghost stmts = stmts_view(body@);
        assert(stmts == p.functions[m as int].body);
        let ghost target = execute_model(old(self)@, p);
        let ghost all_names = assigned_names(executed_statements(p));
        let mut i: usize = 0;
        assert(stmts.skip(0) =~= stmts);
        assert(names@.map_values(|s: String| s@) + all_names =~= all_names);
        while i < body.len()
            invariant
                i <= body@.len(),
                stmts == stmts_view(body@),
                self.wf(),
                run(self@, executed_prefix(stmts.skip(i as int))) == target,
                calls_fit(executed_prefix(stmts.skip(i as int))),
                names@.map_values(|s: String| s@) + assigned_names(executed_prefix(stmts.skip(i as int))) == all_names,
            ensures
                executed_prefix(stmts.skip(i as int)) == Seq::<StmtModel>::empty(),
            decreases body@.len() - i,
        {
            let ghost rest = stmts.skip(i as int);
            assert(rest[0] == body@[i as int]@);
            assert(rest.drop_first() =~= stmts.skip(i + 1));
            proof {
                if !(rest[0] is Return) {
                    lemma_run_cons(self@, rest[0], executed_prefix(rest.drop_first()));
                    lemma_calls_fit_split(rest[0], executed_prefix(rest.drop_first()));
                }
            }
            let ghost before = names@.map_values(|s: String| s@);
            match &body[i] {
                Statement::Return => {
                    assert(executed_prefix(rest) =~= Seq::<StmtModel>::empty());
                    break;
                },
                Statement::Call { name, arguments } => {
                    self.call(name, arguments);
                },
                Statement::Variable { name, .. } => {
                    let copy = crate::ir::copy_string(name);
                    names.push(copy);
                    assert(names@.map_values(|s: String| s@) =~= before.push(name@));
                    assert(before + (seq![name@] + assigned_names(executed_prefix(stmts.skip(i + 1)))) =~= before.push(name@) + assigned_names(executed_prefix(stmts.skip(i + 1))));
                },
            }
            i = i + 1;
            if i == body.len() {
                assert(stmts.skip(i as int) =~= Seq::<StmtModel>::empty());
            }
        }
        assert(run(self@, Seq::<StmtModel>::empty()) == self@);
        assert(assigned_names(Seq::<StmtModel>::empty()) =~= Seq::<Seq<char>>::empty());
        assert(names@.map_values(|s: String| s@) + Seq::<Seq<char>>::empty() =~= names@.map_values(|s: String| s@));
        names
    }
}

/// Whether every call that executing `program` runs fits (see `call_fits`).
pub fn program_fits(program: &Program) -> (r: bool)
    ensures
        r == calls_fit(executed_statements(program@)),
{
    let m = match find_main(program) {
        Some(m) => m,
        None => {
            assert(executed_statements(program@) =~= Seq::<StmtModel>::empty());
            return true;
        },
    };
    let body = &program.functions[m].body;
    let ghost stmts = stmts_view(body@);
    let ghost all = executed_statements(program@);
    assert(all == executed_prefix(stmts));
    let mut i: usize = 0;
    assert(stmts.skip(0) =~= stmts);
    while i < body.len()
        invariant
            i <= body@.len(),
            stmts == stmts_view(body@),
            all == executed_statements(program@),
            calls_fit(all) == calls_fit(executed_prefix(stmts.skip(i as int))),
        ensures
            executed_prefix(stmts.skip(i as int)) == Seq::<StmtModel>::empty(),
        decreases body@.len() - i,
    {
        let ghost rest = stmts.skip(i as int);
        assert(rest[0] == body@[i as int]@);
        assert(rest.drop_first() =~= stmts.skip(i + 1));
        let ok = match &body[i] {
            Statement::Return => {
                assert(executed_prefix(rest) =~= Seq::<StmtModel>::empty());
                break;
            },
            Statement::Call { name, arguments } => {
                proof {
                    lemma_calls_fit_split(rest[0], executed_prefix(rest.drop_first()));
                }
                call_fits_exec(name, arguments)
            },
            Statement::Variable { .. } => {
                proof {
                    lemma_calls_fit_split(rest[0], executed_prefix(rest.drop_first()));
                }
                true
            },
        };
        if !ok {
            return false;
        }
        i = i + 1;
        if i == body.len() {
            assert(stmts.skip(i as int) =~= Seq::<StmtModel>::empty());
        }
    }
    true
}

/// Whether the call of `name` with `args` fits.
fn call_fits_exec(name: &String, args: &Vec<Expression>) -> (r: bool)
    ensures
        r == call_fits(name@, exprs_view(args@)),
{
    if !same_text(name.as_str(), "hbvDrawRect") || !integers_exec(args, 5) {
        return true;
    }
    let x = coordinate_of(int_arg(args, 0)) as u128;
    let y = coordinate_of(int_arg(args, 1)) as u128;
    let w = coordinate_of(int_arg(args, 2)) as u128;
    let h = coordinate_of(int_arg(args, 3)) as u128;
    x + w <= usize::MAX as u128 && y + h <= usize::MAX as u128
}

/// Both screens keep the console's sizes, 400 by 240 on top and 320 by 240
/// below, with one framebuffer pixel per position.
pub open spec fn framebuffers_sound(rt: RuntimeModel) -> bool {
    &&& rt.top_screen.width == TOP_WIDTH && rt.top_screen.height == TOP_HEIGHT
    &&& rt.bottom_screen.width == BOTTOM_WIDTH && rt.bottom_screen.height == BOTTOM_HEIGHT
    &&& rt.top_screen.pixels.len() == TOP_WIDTH * TOP_HEIGHT
    &&& rt.bottom_screen.pixels.len() == BOTTOM_WIDTH * BOTTOM_HEIGHT
}

/// No call changes the size of a screen or of its framebuffer.
pub proof fn lemma_call_keeps_framebuffers(rt: RuntimeModel, name: Seq<char>, args: Seq<ExprModel>)
    requires
        framebuffers_sound(rt),
    ensures
        framebuffers_sound(call_model(rt, name, args)),
{
}

/// Running statements keeps the framebuffers sound.
pub proof fn lemma_run_keeps_framebuffers(rt: RuntimeModel, stmts: Seq<StmtModel>)
    requires
        framebuffers_sound(rt),
    ensures
        framebuffers_sound(run(rt, stmts)),
    decreases stmts.len(),
{
    if stmts.len() > 0 {
        match stmts[0] {
            StmtModel::Call { name, arguments } => lemma_call_keeps_framebuffers(rt, name, arguments),
            _ => {},
        }
        lemma_run_keeps_framebuffers(step(rt, stmts[0]), stmts.drop_first());
    }
}

/// Whatever program a fresh runtime executes, both screens keep the
/// console's sizes and their framebuffers one pixel per position.
pub proof fn lemma_execute_keeps_framebuffers(rt: RuntimeModel, p: ProgramModel)
    requires
        initial_state(rt),
    ensures
        framebuffers_sound(execute_model(rt, p)),
{
    lemma_run_keeps_framebuffers(rt, executed_statements(p));
}

/// Running statements never changes which keys are held.
pub proof fn lemma_run_keeps_held_keys(rt: RuntimeModel, stmts: Seq<StmtModel>)
    ensures
        run(rt, stmts).input.held == rt.input.held,
    decreases stmts.len(),
{
    if stmts.len() > 0 {
        lemma_run_keeps_held_keys(step(rt, stmts[0]), stmts.drop_first());
    }
}

/// `consoleInit` selects the screen its first argument names: the bottom
/// screen for `GFX_BOTTOM`, the top screen for any other identifier, whatever
/// screen was selected before; the screens themselves are left as they were,
/// and the text `printf` writes next lands on the selected screen only.
pub proof fn lemma_console_init_selects_screen(rt: RuntimeModel, screen: Seq<char>, rest: Seq<ExprModel>, text: Seq<char>)
    ensures
        ({
            let after = call_model(rt, "consoleInit"@, seq![ExprModel::Identifier(screen)] + rest);
            let printed = call_model(after, "printf"@, seq![ExprModel::Text(text)]);
            &&& after.console_initialized
            &&& after.top_screen == rt.top_screen
            &&& after.bottom_screen == rt.bottom_screen
            &&& after.current_screen == if screen == "GFX_BOTTOM"@ { ScreenTarget::Bottom } else { ScreenTarget::Top }
            &&& screen != "GFX_BOTTOM"@ ==> printed.top_screen.text == rt.top_screen.text + split_on(text, '\n')
                && printed.bottom_screen == rt.bottom_screen
            &&& screen == "GFX_BOTTOM"@ ==> printed.bottom_screen.text == rt.bottom_screen.text + split_on(text, '\n')
                && printed.top_screen == rt.top_screen
        }),
{
    reveal_strlit("gfxInitDefault");
    reveal_strlit("consoleInit");
    reveal_strlit("printf");
    assert("gfxInitDefault"@.len() == 14 && "consoleInit"@.len() == 11 && "printf"@.len() == 6);
    let args = seq![ExprModel::Identifier(screen)] + rest;
    assert(args[0] == ExprModel::Identifier(screen));
    let t = seq![ExprModel::Text(text)];
    assert(t[0] == ExprModel::Text(text));
}

/// `hbvDrawRect(x, y, w, h, c)` with non-negative integers (each a `usize`
/// value, as the call takes them) fills the part of
/// the rectangle with corner (`x`, `y`), `w` columns wide and `h` rows high,
/// that lies on the current screen with the color `c`, and leaves every other
/// pixel, the screen's size and the selected screen as they were.
pub proof fn lemma_draw_rect_fills(
    rt: RuntimeModel,
    x: i64,
    y: i64,
    w: i64,
    h: i64,
    c: i64,
    rest: Seq<ExprModel>,
    qx: int,
    qy: int,
)
    requires
        0 <= x <= usize::MAX && 0 <= y <= usize::MAX && 0 <= w <= usize::MAX && 0 <= h <= usize::MAX,
        current(rt).pixels.len() == current(rt).width * current(rt).height,
        0 <= qx < current(rt).width,
        0 <= qy < current(rt).height,
    ensures
        ({
            let args = seq![
                ExprModel::Integer(x),
                ExprModel::Integer(y),
                ExprModel::Integer(w),
                ExprModel::Integer(h),
                ExprModel::Integer(c),
            ] + rest;
            let before = current(rt);
            let after = call_model(rt, "hbvDrawRect"@, args);
            let s = current(after);
            &&& after.current_screen == rt.current_screen
            &&& s.width == before.width && s.height == before.height
            &&& s.pixels.len() == before.pixels.len()
            &&& s.pixels[qy * before.width + qx] == if x <= qx < x + w && y <= qy < y + h {
                c as u32
            } else {
                before.pixels[qy * before.width + qx]
            }
        }),
{
    reveal_strlit("gfxInitDefault");
    reveal_strlit("consoleInit");
    reveal_strlit("printf");
    reveal_strlit("gfxExit");
    reveal_strlit("hbvClear");
    reveal_strlit("hbvDrawPixel");
    reveal_strlit("hbvDrawRect");
    assert("gfxInitDefault"@.len() == 14 && "consoleInit"@.len() == 11 && "printf"@.len() == 6);
    assert("gfxExit"@.len() == 7 && "hbvClear"@.len() == 8 && "hbvDrawPixel"@.len() == 12);
    assert("hbvDrawRect"@.len() == 11 && "hbvDrawRect"@[0] == 'h' && "consoleInit"@[0] == 'c');
    let args = seq![
        ExprModel::Integer(x),
        ExprModel::Integer(y),
        ExprModel::Integer(w),
        ExprModel::Integer(h),
        ExprModel::Integer(c),
    ] + rest;
    assert(args[0] == ExprModel::Integer(x));
    assert(args[1] == ExprModel::Integer(y));
    assert(args[2] == ExprModel::Integer(w));
    assert(args[3] == ExprModel::Integer(h));
    assert(args[4] == ExprModel::Integer(c));
    assert(integers(args, 5));
    let before = current(rt);
    let width = before.width as int;
    let i = qy * width + qx;
    assert(0 <= qy * width) by (nonlinear_arith) requires 0 <= qy, 0 <= width;
    assert(qy * width + qx < width * before.height) by (nonlinear_arith)
        requires 0 <= qx < width, 0 <= qy < before.height;
    vstd::arithmetic::div_mod::lemma_fundamental_div_mod_converse(i, width, qy, qx);
    assert("hbvDrawRect"@ != "consoleInit"@);
    assert(coordinate(int_at(args, 2)) == w);
    let filled = rect_filled(before.pixels, before.width, x as int, y as int, w as int, h as int, c as u32);
    assert(call_model(rt, "hbvDrawRect"@, args) == with_current(rt, ScreenState { pixels: filled, ..before }));
    assert(filled[i] == if x <= qx < x + w && y <= qy < y + h { c as u32 } else { before.pixels[i] });
}

} // verus!
