//! The state machine that turns deltas into terminal output and the
//! accumulated reply. The caller performs the outputs in order: it stops the
//! busy indicator (and waits for it), prints text, or types text out one
//! character at a time.
use vstd::prelude::*;
use crate::models::{DeltaMessage, StreamingChunk, fragment, first_delta_of};

verus! {

/// What the caller is to do next, as a mathematical value.
pub ghost enum OutputSpec {
    StopIndicator,
    Print(Seq<char>),
    Type(Seq<char>),
}

/// What the caller is to do next.
pub enum Output {
    /// Clear the busy indicator and wait until it has stopped writing.
    StopIndicator,
    /// Write this text to standard output at once.
    Print(String),
    /// Write this text to standard output one character at a time.
    Type(String),
}

impl View for Output {
    type V = OutputSpec;

    open spec fn view(&self) -> OutputSpec {
        match self {
            Output::StopIndicator => OutputSpec::StopIndicator,
            Output::Print(s) => OutputSpec::Print(s@),
            Output::Type(s) => OutputSpec::Type(s@),
        }
    }
}

pub open spec fn outputs_view(v: Seq<Output>) -> Seq<OutputSpec> {
    v.map_values(|o: Output| o@)
}

/// The state of one reply, as a mathematical value.
pub ghost struct StreamModel {
    pub first_byte_seen: bool,
    pub answering: bool,
    pub indicator_running: bool,
    pub done: bool,
    pub accumulated: Seq<char>,
}

/// The name of the model that thinks aloud before it answers.
pub open spec fn reasoning_model_name() -> Seq<char> {
    "deepseek-reasoner"@
}

/// The line printed before the first character of the reply.
pub open spec fn header_text(model: Seq<char>) -> Seq<char> {
    "\r"@ + model + "🤖:\n"@
}

/// What follows each reasoning fragment.
pub open spec fn reasoning_end_text() -> Seq<char> {
    "\n\n"@
}

/// The marker printed where the answer starts after the reasoning.
pub open spec fn answer_marker_text() -> Seq<char> {
    "\nanswer:\n\n"@
}

pub open spec fn initial_state(indicator_running: bool) -> StreamModel {
    StreamModel {
        first_byte_seen: false,
        answering: false,
        indicator_running,
        done: false,
        accumulated: Seq::empty(),
    }
}

/// Whether a delta with these fragments has anything to render.
pub open spec fn meaningful(r: Seq<char>, a: Seq<char>) -> bool {
    r.len() > 0 || a.len() > 0
}

/// Whether the answer marker comes before the answer fragment `a`.
pub open spec fn transition_fires(s: StreamModel, rm: bool, a: Seq<char>) -> bool {
    !s.done && rm && !s.answering && a.len() > 0
}

/// The state after a delta with reasoning fragment `r` and answer fragment `a`.
pub open spec fn step(s: StreamModel, rm: bool, r: Seq<char>, a: Seq<char>) -> StreamModel {
    if s.done || !meaningful(r, a) {
        s
    } else {
        StreamModel {
            first_byte_seen: true,
            answering: s.answering || transition_fires(s, rm, a),
            indicator_running: false,
            done: false,
            accumulated: s.accumulated + r + a,
        }
    }
}

/// The outputs of a delta with reasoning fragment `r` and answer fragment `a`.
pub open spec fn step_outputs(
    s: StreamModel,
    rm: bool,
    model: Seq<char>,
    r: Seq<char>,
    a: Seq<char>,
) -> Seq<OutputSpec> {
    if s.done || !meaningful(r, a) {
        Seq::empty()
    } else {
        let start = if s.first_byte_seen {
            Seq::empty()
        } else if s.indicator_running {
            seq![OutputSpec::StopIndicator, OutputSpec::Print(header_text(model))]
        } else {
            seq![OutputSpec::Print(header_text(model))]
        };
        let think = if r.len() > 0 {
            seq![OutputSpec::Type(r), OutputSpec::Print(reasoning_end_text())]
        } else {
            Seq::empty()
        };
        let marker = if transition_fires(s, rm, a) {
            seq![OutputSpec::Print(answer_marker_text())]
        } else {
            Seq::empty()
        };
        let answer = if a.len() > 0 {
            seq![OutputSpec::Type(a)]
        } else {
            Seq::empty()
        };
        start + think + marker + answer
    }
}

/// The state once the stream has ended.
pub open spec fn end_step(s: StreamModel) -> StreamModel {
    StreamModel { done: true, indicator_running: false, ..s }
}

/// The outputs at the end of the stream.
pub open spec fn end_outputs(s: StreamModel) -> Seq<OutputSpec> {
    if s.indicator_running {
        seq![OutputSpec::StopIndicator]
    } else {
        Seq::empty()
    }
}

/// The state after a run of deltas, each a pair of reasoning and answer
/// fragments, in arrival order.
pub open spec fn run(s: StreamModel, rm: bool, ds: Seq<(Seq<char>, Seq<char>)>) -> StreamModel
    decreases ds.len(),
{
    if ds.len() == 0 {
        s
    } else {
        run(step(s, rm, ds[0].0, ds[0].1), rm, ds.drop_first())
    }
}

/// Every reasoning fragment followed by every answer fragment, delta by delta.
pub open spec fn concat_fragments(ds: Seq<(Seq<char>, Seq<char>)>) -> Seq<char>
    decreases ds.len(),
{
    if ds.len() == 0 {
        Seq::empty()
    } else {
        ds[0].0 + ds[0].1 + concat_fragments(ds.drop_first())
    }
}

/// How many times the answer marker is printed over a run.
pub open spec fn transitions(s: StreamModel, rm: bool, ds: Seq<(Seq<char>, Seq<char>)>) -> nat
    decreases ds.len(),
{
    if ds.len() == 0 {
        0
    } else {
        (if transition_fires(s, rm, ds[0].1) { 1nat } else { 0nat })
            + transitions(step(s, rm, ds[0].0, ds[0].1), rm, ds.drop_first())
    }
}

/// The reply is the concatenation, in arrival order, of the reasoning and
/// answer fragments of all deltas that came before the end of the stream.
pub proof fn lemma_reply_is_concatenation(s: StreamModel, rm: bool, ds: Seq<(Seq<char>, Seq<char>)>)
    requires
        !s.done,
    ensures
        run(s, rm, ds).accumulated == s.accumulated + concat_fragments(ds),
        !run(s, rm, ds).done,
    decreases ds.len(),
{
    if ds.len() == 0 {
        assert(s.accumulated + Seq::empty() =~= s.accumulated);
    } else {
        let t = step(s, rm, ds[0].0, ds[0].1);
        lemma_reply_is_concatenation(t, rm, ds.drop_first());
        if meaningful(ds[0].0, ds[0].1) {
            assert(t.accumulated + concat_fragments(ds.drop_first()) =~= s.accumulated + concat_fragments(ds));
        } else {
            assert(ds[0].0 + ds[0].1 + concat_fragments(ds.drop_first()) =~= concat_fragments(ds.drop_first()));
        }
    }
}

/// From the start of a stream, the reply is the concatenation of all
/// fragments in arrival order.
pub proof fn lemma_reply_from_start(indicator: bool, rm: bool, ds: Seq<(Seq<char>, Seq<char>)>)
    ensures
        run(initial_state(indicator), rm, ds).accumulated == concat_fragments(ds),
{
    lemma_reply_is_concatenation(initial_state(indicator), rm, ds);
    assert(Seq::<char>::empty() + concat_fragments(ds) =~= concat_fragments(ds));
}

/// The answer marker is printed at most once per stream, never for a model
/// that does not reason, and never once the answer has started.
pub proof fn lemma_marker_at_most_once(s: StreamModel, rm: bool, ds: Seq<(Seq<char>, Seq<char>)>)
    ensures
        transitions(s, rm, ds) <= 1,
        (!rm || s.answering) ==> transitions(s, rm, ds) == 0,
    decreases ds.len(),
{
    if ds.len() > 0 {
        let t = step(s, rm, ds[0].0, ds[0].1);
        lemma_marker_at_most_once(t, rm, ds.drop_first());
        if transition_fires(s, rm, ds[0].1) {
            assert(t.answering);
        }
    }
}

/// A step turns to the answer only where the transition fires, and never
/// turns back.
pub proof fn lemma_transition_only_when_fired(s: StreamModel, rm: bool, r: Seq<char>, a: Seq<char>)
    ensures
        step(s, rm, r, a).answering == (s.answering || transition_fires(s, rm, a)),
        end_step(s).answering == s.answering,
{
}

/// Once stopped, the busy indicator is never running again.
pub proof fn lemma_indicator_stays_stopped(s: StreamModel, rm: bool, ds: Seq<(Seq<char>, Seq<char>)>)
    requires
        !s.indicator_running,
    ensures
        !run(s, rm, ds).indicator_running,
        !end_step(run(s, rm, ds)).indicator_running,
    decreases ds.len(),
{
    if ds.len() > 0 {
        lemma_indicator_stays_stopped(step(s, rm, ds[0].0, ds[0].1), rm, ds.drop_first());
    }
}

/// With no delta that carries text, the reply is empty and no header is
/// printed; with at least one, the first byte has been seen, which is when
/// the header is printed.
pub proof fn lemma_first_byte(s: StreamModel, rm: bool, ds: Seq<(Seq<char>, Seq<char>)>)
    requires
        !s.done,
    ensures
        (forall|i: int| 0 <= i < ds.len() ==> !meaningful(#[trigger] ds[i].0, ds[i].1)) ==> {
            &&& run(s, rm, ds).accumulated == s.accumulated
            &&& run(s, rm, ds).first_byte_seen == s.first_byte_seen
        },
        (exists|i: int| 0 <= i < ds.len() && meaningful(#[trigger] ds[i].0, ds[i].1)) ==> run(s, rm, ds).first_byte_seen,
        s.first_byte_seen ==> run(s, rm, ds).first_byte_seen,
    decreases ds.len(),
{
    if ds.len() > 0 {
        let t = step(s, rm, ds[0].0, ds[0].1);
        lemma_first_byte(t, rm, ds.drop_first());
        let tail = ds.drop_first();
        if forall|i: int| 0 <= i < ds.len() ==> !meaningful(#[trigger] ds[i].0, ds[i].1) {
            assert(!meaningful(ds[0].0, ds[0].1));
            assert forall|i: int| 0 <= i < tail.len() implies !meaningful(#[trigger] tail[i].0, tail[i].1) by {
                assert(tail[i] == ds[i + 1]);
            }
        }
        if exists|i: int| 0 <= i < ds.len() && meaningful(#[trigger] ds[i].0, ds[i].1) {
            let i = choose|i: int| 0 <= i < ds.len() && meaningful(#[trigger] ds[i].0, ds[i].1);
            if i > 0 {
                assert(tail[i - 1] == ds[i]);
            }
        }
    }
}

/// The header is printed by a step exactly when it is the first that
/// carries text: never once the first byte has been seen.
pub proof fn lemma_header_on_first_delta_only(s: StreamModel, rm: bool, model: Seq<char>, r: Seq<char>, a: Seq<char>)
    requires
        !s.done,
    ensures
        step_outputs(s, rm, model, r, a).contains(OutputSpec::Print(header_text(model)))
            == (!s.first_byte_seen && meaningful(r, a)),
        meaningful(r, a) ==> step(s, rm, r, a).first_byte_seen,
{
    let o = step_outputs(s, rm, model, r, a);
    let h = OutputSpec::Print(header_text(model));
    if !s.first_byte_seen && meaningful(r, a) {
        if s.indicator_running {
            assert(o[1] == h);
        } else {
            assert(o[0] == h);
        }
    }
    if s.first_byte_seen {
        reveal_strlit("\r");
        reveal_strlit("\n\n");
        reveal_strlit("\nanswer:\n\n");
        assert(header_text(model)[0] == '\r');
        assert forall|i: int| 0 <= i < o.len() implies o[i] != h by {
            if o[i] is Print {
                let t = o[i]->Print_0;
                assert(t == reasoning_end_text() || t == answer_marker_text());
                assert(t[0] == '\n');
            }
        }
    }
}

/// Whether `model` names the model that reasons before it answers.
pub fn is_reasoning_model(model: &str) -> (r: bool)
    ensures
        r == (model@ == reasoning_model_name()),
{
    let name = String::from_str("deepseek-reasoner");
    let m = String::from_str(model);
    m == name
}

/// The line printed before the reply.
pub fn header_line(model: &str) -> (r: String)
    ensures
        r@ == header_text(model@),
{
    let mut h = String::from_str("\r");
    h.append(model);
    h.append("🤖:\n");
    h
}

fn fragment_text(o: Option<String>) -> (r: String)
    ensures
        r@ == fragment(o),
{
    match o {
        Some(s) => s,
        None => String::new(),
    }
}

/// The assembler of one reply.
pub struct Assembler {
    model: String,
    reasoning_model: bool,
    first_byte_seen: bool,
    answering: bool,
    indicator_running: bool,
    done: bool,
    accumulated: String,
}

impl View for Assembler {
    type V = StreamModel;

    closed spec fn view(&self) -> StreamModel {
        StreamModel {
            first_byte_seen: self.first_byte_seen,
            answering: self.answering,
            indicator_running: self.indicator_running,
            done: self.done,
            accumulated: self.accumulated@,
        }
    }
}

impl Assembler {
    pub closed spec fn model(&self) -> Seq<char> {
        self.model@
    }

    /// Whether the model reasons before it answers.
    pub closed spec fn reasoning(&self) -> bool {
        self.reasoning_model
    }

    /// Starts a reply from `model`; `indicator_running` says whether a busy
    /// indicator was started beside it.
    pub fn new(model: &str, indicator_running: bool) -> (r: Assembler)
        ensures
            r@ == initial_state(indicator_running),
            r.model() == model@,
            r.reasoning() == (model@ == reasoning_model_name()),
    {
        Assembler {
            model: String::from_str(model),
            reasoning_model: is_reasoning_model(model),
            first_byte_seen: false,
            answering: false,
            indicator_running,
            done: false,
            accumulated: String::new(),
        }
    }

    pub fn is_done(&self) -> (r: bool)
        ensures
            r == self@.done,
    {
        self.done
    }

    /// Takes in one delta. Empty fragments count as absent.
    pub fn on_delta(&mut self, d: DeltaMessage) -> (r: Vec<Output>)
        ensures
            final(self)@ == step(old(self)@, old(self).reasoning(), fragment(d.reasoning_content), fragment(d.content)),
            outputs_view(r@) == step_outputs(
                old(self)@,
                old(self).reasoning(),
                old(self).model(),
                fragment(d.reasoning_content),
                fragment(d.content),
            ),
            final(self).model() == old(self).model(),
            final(self).reasoning() == old(self).reasoning(),
    {
        let r = fragment_text(d.reasoning_content);
        let a = fragment_text(d.content);
        let has_r = r.as_str().unicode_len() > 0;
        let has_a = a.as_str().unicode_len() > 0;
        let mut out: Vec<Output> = Vec::new();
        if self.done || (!has_r && !has_a) {
            proof {
                assert(outputs_view(out@) =~= Seq::<OutputSpec>::empty());
            }
            return out;
        }
        if !self.first_byte_seen {
            if self.indicator_running {
                out.push(Output::StopIndicator);
            }
            out.push(Output::Print(header_line(self.model.as_str())));
        }
        self.first_byte_seen = true;
        self.indicator_running = false;
        if has_r {
            self.accumulated.append(r.as_str());
            out.push(Output::Type(r));
            out.push(Output::Print(String::from_str("\n\n")));
        }
        if has_a {
            if self.reasoning_model && !self.answering {
                self.answering = true;
                out.push(Output::Print(String::from_str("\nanswer:\n\n")));
            }
            self.accumulated.append(a.as_str());
            out.push(Output::Type(a));
        }
        proof {
            assert(outputs_view(out@) =~= step_outputs(
                old(self)@,
                old(self).reasoning(),
                old(self).model(),
                fragment(d.reasoning_content),
                fragment(d.content),
            ));
            assert(self@.accumulated =~= step(old(self)@, old(self).reasoning(), fragment(d.reasoning_content), fragment(d.content)).accumulated);
        }
        out
    }

    /// Takes in the payload of a data line: `None` where it did not parse,
    /// which renders nothing. Only the first choice counts.
    pub fn on_chunk(&mut self, c: Option<StreamingChunk>) -> (r: Vec<Output>)
        ensures
            match c {
                Some(chunk) => match first_delta_of(chunk) {
                    Some(d) => {
                        &&& final(self)@ == step(old(self)@, old(self).reasoning(), fragment(d.reasoning_content), fragment(d.content))
                        &&& outputs_view(r@) == step_outputs(
                            old(self)@,
                            old(self).reasoning(),
                            old(self).model(),
                            fragment(d.reasoning_content),
                            fragment(d.content),
                        )
                    },
                    None => final(self)@ == old(self)@ && r@.len() == 0,
                },
                None => final(self)@ == old(self)@ && r@.len() == 0,
            },
            final(self).model() == old(self).model(),
            final(self).reasoning() == old(self).reasoning(),
    {
        match c {
            Some(chunk) => match chunk.first_delta() {
                Some(d) => self.on_delta(d),
                None => Vec::new(),
            },
            None => Vec::new(),
        }
    }

    /// Ends the stream, on a terminal frame or at the end of input. The
    /// indicator is stopped here if no delta ever came.
    pub fn finish(&mut self) -> (r: Vec<Output>)
        ensures
            final(self)@ == end_step(old(self)@),
            outputs_view(r@) == end_outputs(old(self)@),
            final(self).model() == old(self).model(),
            final(self).reasoning() == old(self).reasoning(),
    {
        let mut out: Vec<Output> = Vec::new();
        if self.indicator_running {
            out.push(Output::StopIndicator);
        }
        self.indicator_running = false;
        self.done = true;
        proof {
            assert(outputs_view(out@) =~= end_outputs(old(self)@));
        }
        out
    }

    /// The reply as accumulated so far.
    pub fn into_result(self) -> (r: String)
        ensures
            r@ == self@.accumulated,
    {
        self.accumulated
    }
}

} // verus!
