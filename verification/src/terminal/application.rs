use vstd::prelude::*;

verus! {

/// Gathers what a terminal application is made of: its state `S`, the
/// component `C` that draws it, and the callbacks it is driven by (`I` is
/// called on each input event, `U` on each update, `R` decides whether a
/// frame is drawn, `W` whether the application keeps running). A callback
/// that is not given stays absent; the loop then does nothing for it, draws
/// every frame, or keeps running, respectively.
pub struct TerminalAppBuilder<S, C, I, U, R, W> {
    app_state: S,
    main_component: C,
    on_input_event: Option<I>,
    on_update: Option<U>,
    should_render: Option<R>,
    run_while: Option<W>,
}

/// A terminal application ready to run, with the parts its builder gathered.
pub struct TerminalApp<S, C, I, U, R, W> {
    app_state: S,
    main_component: C,
    on_input_event: Option<I>,
    on_update: Option<U>,
    should_render: Option<R>,
    run_while: Option<W>,
}

impl<S, C, I, U, R, W> TerminalAppBuilder<S, C, I, U, R, W> {
    pub closed spec fn parts(&self) -> (S, C, Option<I>, Option<U>, Option<R>, Option<W>) {
        (
            self.app_state,
            self.main_component,
            self.on_input_event,
            self.on_update,
            self.should_render,
            self.run_while,
        )
    }

    /// A builder with no callbacks.
    pub fn new(app_state: S, main_component: C) -> (b: TerminalAppBuilder<S, C, I, U, R, W>)
        ensures
            b.parts() == (app_state, main_component, None::<I>, None::<U>, None::<R>, None::<W>),
    {
        TerminalAppBuilder {
            app_state,
            main_component,
            on_input_event: None,
            on_update: None,
            should_render: None,
            run_while: None,
        }
    }

    /// Sets the callback called on each input event.
    pub fn on_input_event(self, f: I) -> (b: TerminalAppBuilder<S, C, I, U, R, W>)
        ensures
            b.parts() == (self.parts().0, self.parts().1, Some(f), self.parts().3, self.parts().4,
                self.parts().5),
    {
        TerminalAppBuilder { on_input_event: Some(f), ..self }
    }

    /// Sets the callback that decides whether a frame is drawn.
    pub fn only_render_when(self, f: R) -> (b: TerminalAppBuilder<S, C, I, U, R, W>)
        ensures
            b.parts() == (self.parts().0, self.parts().1, self.parts().2, self.parts().3, Some(f),
                self.parts().5),
    {
        TerminalAppBuilder { should_render: Some(f), ..self }
    }

    /// Sets the callback called on each update.
    pub fn on_update(self, f: U) -> (b: TerminalAppBuilder<S, C, I, U, R, W>)
        ensures
            b.parts() == (self.parts().0, self.parts().1, self.parts().2, Some(f), self.parts().4,
                self.parts().5),
    {
        TerminalAppBuilder { on_update: Some(f), ..self }
    }

    /// Sets the callback that decides whether the application keeps running.
    pub fn run_while(self, f: W) -> (b: TerminalAppBuilder<S, C, I, U, R, W>)
        ensures
            b.parts() == (self.parts().0, self.parts().1, self.parts().2, self.parts().3,
                self.parts().4, Some(f)),
    {
        TerminalAppBuilder { run_while: Some(f), ..self }
    }

    /// The application, with every part the builder gathered.
    pub fn finalize(self) -> (a: TerminalApp<S, C, I, U, R, W>)
        ensures
            a.parts() == self.parts(),
    {
        TerminalApp {
            app_state: self.app_state,
            main_component: self.main_component,
            on_input_event: self.on_input_event,
            on_update: self.on_update,
            should_render: self.should_render,
            run_while: self.run_while,
        }
    }
}

impl<S, C, I, U, R, W> TerminalApp<S, C, I, U, R, W> {
    pub closed spec fn parts(&self) -> (S, C, Option<I>, Option<U>, Option<R>, Option<W>) {
        (
            self.app_state,
            self.main_component,
            self.on_input_event,
            self.on_update,
            self.should_render,
            self.run_while,
        )
    }

    /// The parts, to run the application.
    pub fn into_parts(self) -> (p: (S, C, Option<I>, Option<U>, Option<R>, Option<W>))
        ensures
            p == self.parts(),
    {
        (
            self.app_state,
            self.main_component,
            self.on_input_event,
            self.on_update,
            self.should_render,
            self.run_while,
        )
    }
}

} // verus!
