//! The per-agent state machine the orchestrator drives: source resolution,
//! prompt composition, the cache short-circuit, the reasoning call, and the
//! commit of a successful result to memory and cache. The reasoning call
//! itself is outside work: the machine hands out the prompt and takes the
//! outcome back, and is verified for every outcome.

use vstd::prelude::*;
use vstd::string::*;

use crate::cache::{CacheManager, Fingerprint, pairs_view};
use crate::memory::Memory;
use crate::scan::{char_len, csq, ends_with, starts_with, str_starts_with, trimmed, trimmed_of};
use crate::sources::{DataSource, ResolveOutcome, bundle_view, label_of, source_label};

verus! {

/// How the reasoning service is asked to answer: schema-validated
/// structured output, or free-form text.
#[derive(Clone, Copy, PartialEq, Eq, Structural, Debug)]
pub enum LLMCallMode {
    Extract,
    Text,
}

/// Output-formatting configuration handed to the reasoning service
/// alongside the prompt.
pub struct FormatterConfig {
    /// Whether each bundle section carries its source label as a heading.
    pub labelled_sections: bool,
}

impl Default for FormatterConfig {
    /// The default formatting: labelled sections.
    fn default() -> (r: FormatterConfig)
        ensures
            r.labelled_sections,
    {
        FormatterConfig { labelled_sections: true }
    }
}

/// An agent's prompt template. The version participates in the cache
/// fingerprint: editing a template forces recomputation.
pub struct PromptTemplate {
    pub system_prompt: String,
    pub opening_instruction: String,
    pub closing_instruction: String,
    pub llm_call_mode: LLMCallMode,
    pub formatter_config: FormatterConfig,
    pub version: String,
}

/// The states one agent passes through in one run.
#[derive(Clone, Copy, PartialEq, Eq, Structural, Debug)]
pub enum AgentState {
    Pending,
    SourcesResolving,
    Blocked,
    PromptReady,
    Invoking,
    Succeeded,
    Failed,
    Committed,
}

/// The transition relation of the agent machine. Blocked, Failed and
/// Committed are terminal; a cache hit takes PromptReady straight to
/// Committed.
pub open spec fn allowed_step(a: AgentState, b: AgentState) -> bool {
    ||| (a == AgentState::Pending && b == AgentState::SourcesResolving)
    ||| (a == AgentState::SourcesResolving && (b == AgentState::Blocked || b
        == AgentState::PromptReady))
    ||| (a == AgentState::PromptReady && (b == AgentState::Committed || b
        == AgentState::Invoking))
    ||| (a == AgentState::Invoking && (b == AgentState::Succeeded || b == AgentState::Failed))
    ||| (a == AgentState::Succeeded && b == AgentState::Committed)
}

/// A blocked agent takes no further step.
pub proof fn lemma_blocked_is_terminal(b: AgentState)
    ensures
        !allowed_step(AgentState::Blocked, b),
{
}

proof fn lemma_blocked_prefix(trace: Seq<AgentState>, k: int)
    requires
        trace.len() >= 1,
        trace[0] == AgentState::Blocked,
        forall|t: int| 0 <= t < trace.len() - 1 ==> #[trigger] allowed_step(trace[t], trace[t + 1]),
        0 <= k < trace.len(),
    ensures
        trace[k] == AgentState::Blocked,
    decreases k,
{
    if k > 0 {
        lemma_blocked_prefix(trace, k - 1);
        assert(allowed_step(trace[k - 1], trace[k - 1 + 1]));
    }
}

/// An agent whose resolution blocked never reaches the invoking state: on
/// any trace of allowed steps that starts blocked, every state is still
/// Blocked, and in particular none is Invoking.
pub proof fn lemma_blocked_never_invokes(trace: Seq<AgentState>)
    requires
        trace.len() >= 1,
        trace[0] == AgentState::Blocked,
        forall|t: int| 0 <= t < trace.len() - 1 ==> #[trigger] allowed_step(trace[t], trace[t + 1]),
    ensures
        forall|t: int| 0 <= t < trace.len() ==> trace[t] != AgentState::Invoking,
{
    assert forall|t: int| 0 <= t < trace.len() implies trace[t] != AgentState::Invoking by {
        lemma_blocked_prefix(trace, t);
    }
}

/// One bundle section of the final prompt: a blank line, the source's
/// label as a heading, a blank line, and the resolved value.
pub open spec fn bundle_section(p: (DataSource, Seq<char>)) -> Seq<char> {
    csq("\n\n## ") + label_of(p.0) + csq("\n\n") + p.1
}

pub open spec fn bundle_text_from(bundle: Seq<(DataSource, Seq<char>)>, i: int) -> Seq<char>
    decreases bundle.len() - i,
{
    if i < 0 || i >= bundle.len() {
        Seq::empty()
    } else {
        bundle_section(bundle[i]) + bundle_text_from(bundle, i + 1)
    }
}

/// The final prompt: system prompt, opening instruction, one section per
/// resolved source, and the closing instruction.
pub open spec fn composed_prompt(
    system_prompt: Seq<char>,
    opening: Seq<char>,
    closing: Seq<char>,
    bundle: Seq<(DataSource, Seq<char>)>,
) -> Seq<char> {
    system_prompt + csq("\n\n") + opening + bundle_text_from(bundle, 0) + csq("\n\n") + closing
}

fn compose_prompt(tpl: &PromptTemplate, bundle: &Vec<(DataSource, String)>) -> (r: String)
    ensures
        r@ == composed_prompt(
            tpl.system_prompt@,
            tpl.opening_instruction@,
            tpl.closing_instruction@,
            bundle_view(bundle@),
        ),
{
    let mut out = String::from_str(tpl.system_prompt.as_str());
    out.append("\n\n");
    out.append(tpl.opening_instruction.as_str());
    let ghost head = tpl.system_prompt@ + csq("\n\n") + tpl.opening_instruction@;
    proof {
        assert(out@ =~= head + partial_text(bundle_view(bundle@), 0));
    }
    let mut i: usize = 0;
    while i < bundle.len()
        invariant
            0 <= i <= bundle@.len(),
            out@ == head + partial_text(bundle_view(bundle@), i as int),
        decreases bundle@.len() - i,
    {
        let ghost bv = bundle_view(bundle@);
        out.append("\n\n## ");
        out.append(source_label(bundle[i].0));
        out.append("\n\n");
        out.append(bundle[i].1.as_str());
        proof {
            assert(bv[i as int] == (bundle@[i as int].0, bundle@[i as int].1@));
            assert(out@ =~= head + (partial_text(bv, i as int) + bundle_section(bv[i as int])));
            assert(partial_text(bv, i + 1) == partial_text(bv, i as int) + bundle_section(
                bv[i as int],
            ));
            assert(out@ =~= head + partial_text(bv, i + 1));
        }
        i = i + 1;
    }
    proof {
        lemma_partial_text_all(bundle_view(bundle@));
    }
    out.append("\n\n");
    out.append(tpl.closing_instruction.as_str());
    proof {
        assert(out@ =~= composed_prompt(
            tpl.system_prompt@,
            tpl.opening_instruction@,
            tpl.closing_instruction@,
            bundle_view(bundle@),
        ));
    }
    out
}

/// The prompt text contributed by the first `i` bundle entries.
pub open spec fn partial_text(bundle: Seq<(DataSource, Seq<char>)>, i: int) -> Seq<char>
    decreases i,
{
    if i <= 0 || i > bundle.len() {
        Seq::empty()
    } else {
        partial_text(bundle, i - 1) + bundle_section(bundle[i - 1])
    }
}

proof fn lemma_partial_text_all(bundle: Seq<(DataSource, Seq<char>)>)
    ensures
        partial_text(bundle, bundle.len() as int) == bundle_text_from(bundle, 0),
{
    lemma_partial_eq(bundle, 0);
}

proof fn lemma_partial_eq(bundle: Seq<(DataSource, Seq<char>)>, i: int)
    requires
        0 <= i <= bundle.len(),
    ensures
        partial_text(bundle, i) + bundle_text_from(bundle, i) == partial_text(
            bundle,
            bundle.len() as int,
        ),
    decreases bundle.len() - i,
{
    if i < bundle.len() {
        lemma_partial_eq(bundle, i + 1);
        assert(partial_text(bundle, i + 1) == partial_text(bundle, i) + bundle_section(
            bundle[i],
        ));
        assert(partial_text(bundle, i) + (bundle_section(bundle[i]) + bundle_text_from(
            bundle,
            i + 1,
        )) =~= (partial_text(bundle, i) + bundle_section(bundle[i])) + bundle_text_from(
            bundle,
            i + 1,
        ));
    } else {
        assert(bundle_text_from(bundle, i) =~= Seq::<char>::empty());
        assert(partial_text(bundle, i) + Seq::<char>::empty() =~= partial_text(bundle, i));
    }
}

/// Whether a reasoning-service answer has the shape the call mode expects:
/// structured mode wants one braced object, text mode accepts anything.
pub open spec fn response_ok(mode: LLMCallMode, text: Seq<char>) -> bool {
    match mode {
        LLMCallMode::Extract => starts_with(trimmed(text), csq("{")) && ends_with(
            trimmed(text),
            csq("}"),
        ),
        LLMCallMode::Text => true,
    }
}

/// Whether a reasoning-service answer has the expected shape, executable
/// form.
pub fn validate_response(mode: LLMCallMode, text: &str) -> (r: bool)
    ensures
        r == response_ok(mode, text@),
{
    match mode {
        LLMCallMode::Extract => {
            let t = trimmed_of(text, char_len(text));
            let ts = t.as_str();
            let tn = char_len(ts);
            str_starts_with(ts, tn, "{", char_len("{")) && crate::scan::str_ends_with(
                ts,
                tn,
                "}",
                char_len("}"),
            )
        },
        LLMCallMode::Text => true,
    }
}

/// One agent's progress through one run.
pub struct AgentRun {
    pub name: String,
    pub scope_key: String,
    pub template: PromptTemplate,
    pub state: AgentState,
    pub blocked_on: Vec<DataSource>,
    pub prompt: Option<String>,
    pub fingerprint: Option<Fingerprint>,
    pub output: Option<String>,
    pub failure: Option<String>,
}

/// Everything but the state and the per-step artifacts is unchanged.
pub open spec fn same_identity(a: AgentRun, b: AgentRun) -> bool {
    a.name@ == b.name@ && a.scope_key@ == b.scope_key@ && a.template.system_prompt@
        == b.template.system_prompt@ && a.template.opening_instruction@
        == b.template.opening_instruction@ && a.template.closing_instruction@
        == b.template.closing_instruction@ && a.template.llm_call_mode
        == b.template.llm_call_mode && a.template.version@ == b.template.version@
}

impl AgentRun {
    /// A freshly registered agent.
    pub fn new(name: String, scope_key: String, template: PromptTemplate) -> (r: AgentRun)
        ensures
            r.state == AgentState::Pending,
            r.name@ == name@,
            r.scope_key@ == scope_key@,
            r.prompt is None,
            r.fingerprint is None,
            r.output is None,
            r.failure is None,
    {
        AgentRun {
            name,
            scope_key,
            template,
            state: AgentState::Pending,
            blocked_on: Vec::new(),
            prompt: None,
            fingerprint: None,
            output: None,
            failure: None,
        }
    }

    /// Start resolving the declared sources.
    pub fn begin_resolution(&mut self)
        requires
            old(self).state == AgentState::Pending,
        ensures
            allowed_step(old(self).state, final(self).state),
            final(self).state == AgentState::SourcesResolving,
            same_identity(*old(self), *final(self)),
            final(self).blocked_on == old(self).blocked_on,
            final(self).prompt == old(self).prompt,
            final(self).fingerprint == old(self).fingerprint,
            final(self).output == old(self).output,
            final(self).failure == old(self).failure,
    {
        self.state = AgentState::SourcesResolving;
    }

    /// Take the aggregator's outcome. A blocked resolution is terminal for
    /// this run; a resolved bundle yields the composed prompt and the
    /// fingerprint of this exact computation.
    pub fn apply_resolution(&mut self, outcome: ResolveOutcome)
        requires
            old(self).state == AgentState::SourcesResolving,
        ensures
            allowed_step(old(self).state, final(self).state),
            same_identity(*old(self), *final(self)),
            final(self).output == old(self).output,
            final(self).failure == old(self).failure,
            match outcome {
                ResolveOutcome::Blocked(missing) => final(self).state == AgentState::Blocked
                    && final(self).blocked_on@ == missing@ && final(self).prompt
                    == old(self).prompt && final(self).fingerprint == old(self).fingerprint,
                ResolveOutcome::Resolved(bundle) => final(self).state == AgentState::PromptReady
                    && final(self).blocked_on == old(self).blocked_on && (match final(self).prompt {
                    Some(p) => p@ == composed_prompt(
                        old(self).template.system_prompt@,
                        old(self).template.opening_instruction@,
                        old(self).template.closing_instruction@,
                        bundle_view(bundle@),
                    ),
                    None => false,
                }) && (match final(self).fingerprint {
                    Some(fp) => fp@.agent == old(self).name@ && fp@.inputs == labelled(
                        bundle_view(bundle@),
                    ) && fp@.template_version == old(self).template.version@,
                    None => false,
                }),
            },
    {
        match outcome {
            ResolveOutcome::Blocked(missing) => {
                self.blocked_on = missing;
                self.state = AgentState::Blocked;
            },
            ResolveOutcome::Resolved(bundle) => {
                let prompt = compose_prompt(&self.template, &bundle);
                let inputs = label_bundle(&bundle);
                let fp = Fingerprint::of(
                    self.name.as_str(),
                    inputs,
                    self.template.version.as_str(),
                );
                self.prompt = Some(prompt);
                self.fingerprint = Some(fp);
                self.state = AgentState::PromptReady;
            },
        }
    }

    /// Try the cache with this computation's fingerprint. On a hit the
    /// cached result is committed to memory under this agent's scope and
    /// name, and the run is complete without any reasoning call.
    pub fn try_cache(&mut self, cache: &CacheManager, memory: &mut Memory) -> (hit: bool)
        requires
            old(self).state == AgentState::PromptReady,
            old(self).fingerprint is Some,
            cache.wf(),
            old(memory).wf(),
        ensures
            hit ==> allowed_step(old(self).state, final(self).state),
            same_identity(*old(self), *final(self)),
            final(self).prompt == old(self).prompt,
            final(self).fingerprint == old(self).fingerprint,
            final(self).failure == old(self).failure,
            final(self).blocked_on == old(self).blocked_on,
            !hit ==> final(self).output == old(self).output,
            final(memory).wf(),
            hit == cache@.contains_key(old(self).fingerprint->0@),
            hit ==> final(self).state == AgentState::Committed && (match final(self).output {
                Some(v) => v@ == cache@[old(self).fingerprint->0@],
                None => false,
            }) && final(memory)@ =~= old(memory)@.insert(
                old(self).scope_key@,
                (if old(memory)@.contains_key(old(self).scope_key@) {
                    old(memory)@[old(self).scope_key@]
                } else {
                    Map::empty()
                }).insert(old(self).name@, cache@[old(self).fingerprint->0@]),
            ),
            !hit ==> final(self).state == AgentState::PromptReady && final(memory)@ == old(
                memory,
            )@,
    {
        let fp = match &self.fingerprint {
            Some(fp) => fp,
            None => {
                proof {
                    assert(false);
                }
                unreached()
            },
        };
        match cache.lookup(fp) {
            Some(v) => {
                memory.store(
                    self.scope_key.as_str(),
                    self.name.as_str(),
                    String::from_str(v.as_str()),
                );
                self.output = Some(v);
                self.state = AgentState::Committed;
                true
            },
            None => false,
        }
    }

    /// Hand out the composed prompt and call mode for the reasoning call.
    pub fn begin_invoke(&mut self) -> (r: (String, LLMCallMode))
        requires
            old(self).state == AgentState::PromptReady,
            old(self).prompt is Some,
        ensures
            allowed_step(old(self).state, final(self).state),
            same_identity(*old(self), *final(self)),
            final(self).state == AgentState::Invoking,
            final(self).prompt == old(self).prompt,
            final(self).fingerprint == old(self).fingerprint,
            final(self).output == old(self).output,
            final(self).failure == old(self).failure,
            final(self).blocked_on == old(self).blocked_on,
            r.0@ == old(self).prompt->0@,
            r.1 == old(self).template.llm_call_mode,
    {
        let p = match &self.prompt {
            Some(p) => String::from_str(p.as_str()),
            None => {
                proof {
                    assert(false);
                }
                unreached()
            },
        };
        self.state = AgentState::Invoking;
        (p, self.template.llm_call_mode)
    }

    /// Take the reasoning call's outcome. A transport error or an answer
    /// of the wrong shape fails the agent, with the cause retained for
    /// reporting; failure is contained to this agent.
    pub fn apply_response(&mut self, response: Result<String, String>)
        requires
            old(self).state == AgentState::Invoking,
        ensures
            allowed_step(old(self).state, final(self).state),
            same_identity(*old(self), *final(self)),
            final(self).prompt == old(self).prompt,
            final(self).fingerprint == old(self).fingerprint,
            final(self).blocked_on == old(self).blocked_on,
            match response {
                Ok(text) => if response_ok(old(self).template.llm_call_mode, text@) {
                    final(self).state == AgentState::Succeeded && (match final(self).output {
                        Some(v) => v@ == text@,
                        None => false,
                    }) && final(self).failure == old(self).failure
                } else {
                    final(self).state == AgentState::Failed && (match final(self).failure {
                        Some(f) => f@ == text@,
                        None => false,
                    }) && final(self).output == old(self).output
                },
                Err(e) => final(self).state == AgentState::Failed && (match final(self).failure {
                    Some(f) => f@ == e@,
                    None => false,
                }) && final(self).output == old(self).output,
            },
    {
        match response {
            Ok(text) => {
                if validate_response(self.template.llm_call_mode, text.as_str()) {
                    self.output = Some(text);
                    self.state = AgentState::Succeeded;
                } else {
                    self.failure = Some(text);
                    self.state = AgentState::Failed;
                }
            },
            Err(e) => {
                self.failure = Some(e);
                self.state = AgentState::Failed;
            },
        }
    }

    /// Commit a successful result: write it to the cache under this
    /// computation's fingerprint and to memory under this agent's scope
    /// and name, making it visible to agents scheduled later.
    pub fn commit(&mut self, memory: &mut Memory, cache: &mut CacheManager)
        requires
            old(self).state == AgentState::Succeeded,
            old(self).output is Some,
            old(self).fingerprint is Some,
            old(memory).wf(),
            old(cache).wf(),
        ensures
            allowed_step(old(self).state, final(self).state),
            same_identity(*old(self), *final(self)),
            final(self).state == AgentState::Committed,
            final(self).prompt == old(self).prompt,
            final(self).fingerprint == old(self).fingerprint,
            final(self).output == old(self).output,
            final(self).failure == old(self).failure,
            final(self).blocked_on == old(self).blocked_on,
            final(memory).wf(),
            final(cache).wf(),
            final(cache)@ =~= old(cache)@.insert(
                old(self).fingerprint->0@,
                old(self).output->0@,
            ),
            final(memory)@ =~= old(memory)@.insert(
                old(self).scope_key@,
                (if old(memory)@.contains_key(old(self).scope_key@) {
                    old(memory)@[old(self).scope_key@]
                } else {
                    Map::empty()
                }).insert(old(self).name@, old(self).output->0@),
            ),
    {
        let out = match &self.output {
            Some(v) => String::from_str(v.as_str()),
            None => {
                proof {
                    assert(false);
                }
                unreached()
            },
        };
        let fp_copy = match &self.fingerprint {
            Some(fp) => Fingerprint {
                agent: String::from_str(fp.agent.as_str()),
                inputs: copy_pairs(&fp.inputs),
                template_version: String::from_str(fp.template_version.as_str()),
            },
            None => {
                proof {
                    assert(false);
                }
                unreached()
            },
        };
        proof {
            assert(fp_copy@ =~~= old(self).fingerprint->0@);
        }
        memory.store(self.scope_key.as_str(), self.name.as_str(), String::from_str(
            out.as_str(),
        ));
        cache.store(fp_copy, out);
        self.state = AgentState::Committed;
    }
}

/// Whether index `i` appears in the list.
pub open spec fn appears(v: Seq<usize>, i: int) -> bool {
    exists|t: int| 0 <= t < v.len() && (#[trigger] v[t]) == i
}

/// One agent's place in the dependency graph: the scope it writes, and the
/// scopes it reads from agents that must run before it.
pub struct AgentPlan {
    pub writes_scope: String,
    pub reads_scopes: Vec<String>,
}

/// The view of a list of scope names.
pub open spec fn scopes_view(v: Seq<String>) -> Seq<Seq<char>> {
    v.map_values(|s: String| s@)
}

/// Whether scope `sc` is available at position `k` of an order: produced
/// at startup, or written by an agent scheduled strictly earlier.
pub open spec fn scope_available(
    agents: Seq<AgentPlan>,
    order: Seq<usize>,
    k: int,
    init: Seq<Seq<char>>,
    sc: Seq<char>,
) -> bool {
    init.contains(sc) || exists|t: int|
        0 <= t < k && #[trigger] agents[order[t] as int].writes_scope@ == sc
}

/// Whether the agent at position `k` of the order reads only scopes
/// available to it there.
pub open spec fn step_ok(
    agents: Seq<AgentPlan>,
    order: Seq<usize>,
    k: int,
    init: Seq<Seq<char>>,
) -> bool {
    forall|r: int|
        0 <= r < agents[order[k] as int].reads_scopes@.len() ==> scope_available(
            agents,
            order,
            k,
            init,
            #[trigger] agents[order[k] as int].reads_scopes@[r]@,
        )
}

/// A valid execution order: every position names a registered agent, no
/// agent runs twice, and every agent runs after the writers of everything
/// it reads.
pub open spec fn order_ok(agents: Seq<AgentPlan>, order: Seq<usize>, init: Seq<Seq<char>>) -> bool {
    &&& forall|k: int| 0 <= k < order.len() ==> (#[trigger] order[k]) < agents.len()
    &&& forall|a: int, b: int| 0 <= a < b < order.len() ==> order[a] != order[b]
    &&& forall|k: int| 0 <= k < order.len() ==> #[trigger] step_ok(agents, order, k, init)
}

fn contains_scope(v: &Vec<String>, s: &str) -> (r: bool)
    ensures
        r == scopes_view(v@).contains(s@),
{
    let mut i: usize = 0;
    while i < v.len()
        invariant
            0 <= i <= v@.len(),
            forall|t: int| 0 <= t < i ==> scopes_view(v@)[t] != s@,
        decreases v@.len() - i,
    {
        if crate::scan::str_eq(v[i].as_str(), s) {
            proof {
                assert(scopes_view(v@)[i as int] == s@);
            }
            return true;
        }
        proof {
            assert(scopes_view(v@)[i as int] == v@[i as int]@);
        }
        i = i + 1;
    }
    proof {
        if scopes_view(v@).contains(s@) {
            let t = choose|t: int| 0 <= t < v@.len() && scopes_view(v@)[t] == s@;
            assert(false);
        }
    }
    false
}

/// Whether every scope agent `x` reads is in `avail`.
pub open spec fn reads_available(
    agents: Seq<AgentPlan>,
    x: int,
    avail: Seq<Seq<char>>,
) -> bool {
    forall|t: int|
        0 <= t < agents[x].reads_scopes@.len() ==> avail.contains(
            #[trigger] agents[x].reads_scopes@[t]@,
        )
}

/// Whether agent `x` could still run after the whole order has executed:
/// every scope it reads is produced at startup or written somewhere in the
/// order.
pub open spec fn runnable_after(
    agents: Seq<AgentPlan>,
    order: Seq<usize>,
    init: Seq<Seq<char>>,
    x: int,
) -> bool {
    forall|t: int|
        0 <= t < agents[x].reads_scopes@.len() ==> scope_available(
            agents,
            order,
            order.len() as int,
            init,
            #[trigger] agents[x].reads_scopes@[t]@,
        )
}

fn reads_satisfied(agents: &Vec<AgentPlan>, x: usize, written: &Vec<String>) -> (r: bool)
    requires
        x < agents@.len(),
    ensures
        r == reads_available(agents@, x as int, scopes_view(written@)),
{
    let agent = &agents[x];
    let mut t: usize = 0;
    while t < agent.reads_scopes.len()
        invariant
            0 <= t <= agent.reads_scopes@.len(),
            x < agents@.len(),
            agent == agents@[x as int],
            forall|u: int|
                0 <= u < t ==> scopes_view(written@).contains(
                    #[trigger] agent.reads_scopes@[u]@,
                ),
        decreases agent.reads_scopes@.len() - t,
    {
        if !contains_scope(written, agent.reads_scopes[t].as_str()) {
            proof {
                assert(!scopes_view(written@).contains(agents@[x as int].reads_scopes@[
                    t as int]@));
            }
            return false;
        }
        t = t + 1;
    }
    true
}

/// An agent whose reads are not all in the final written set lacks some
/// read even against the whole executed order.
proof fn lemma_unresolvable(
    agents: Seq<AgentPlan>,
    order: Seq<usize>,
    init: Seq<Seq<char>>,
    written_v: Seq<Seq<char>>,
    x: int,
)
    requires
        written_v == init + order.map_values(|i: usize| agents[i as int].writes_scope@),
        0 <= x < agents.len(),
        !reads_available(agents, x, written_v),
    ensures
        !runnable_after(agents, order, init, x),
{
    let t = choose|t: int|
        0 <= t < agents[x].reads_scopes@.len() && !written_v.contains(
            agents[x].reads_scopes@[t]@,
        );
    let sc = agents[x].reads_scopes@[t]@;
    assert(!scope_available(agents, order, order.len() as int, init, sc)) by {
        if scope_available(agents, order, order.len() as int, init, sc) {
            if init.contains(sc) {
                let w = choose|w: int| 0 <= w < init.len() && init[w] == sc;
                assert(written_v[w] == sc);
                assert(written_v.contains(sc));
            } else {
                let w = choose|w: int|
                    0 <= w < order.len() && #[trigger] agents[order[w] as int].writes_scope@
                        == sc;
                assert(order.map_values(|i: usize| agents[i as int].writes_scope@)[w] == sc);
                assert(written_v[init.len() + w] == sc);
                assert(written_v.contains(sc));
            }
        }
    }
    if runnable_after(agents, order, init, x) {
        assert(scope_available(
            agents,
            order,
            order.len() as int,
            init,
            agents[x].reads_scopes@[t]@,
        ));
    }
}

/// One valid execution order over the registered agents, computed from the
/// memory-scope dependency graph: agents are scheduled only once every
/// scope they read is produced at startup or written by an earlier agent.
/// Agents come back as `blocked` only when they can never be scheduled —
/// a missing producer or a dependency cycle — so each still lacks some
/// read even after the whole order has executed; they are reported rather
/// than speculated past, and the two lists name every agent exactly once.
#[verifier::rlimit(60)]
pub fn execution_order(agents: &Vec<AgentPlan>, initial_scopes: &Vec<String>) -> (r: (
    Vec<usize>,
    Vec<usize>,
))
    ensures
        order_ok(agents@, r.0@, scopes_view(initial_scopes@)),
        forall|j: int| 0 <= j < r.1@.len() ==> (#[trigger] r.1@[j]) < agents@.len(),
        r.0@.len() + r.1@.len() == agents@.len(),
        forall|i: int|
            0 <= i < agents@.len() ==> (#[trigger] appears(r.0@, i)) || appears(r.1@, i),
        forall|j: int|
            0 <= j < r.1@.len() ==> !(#[trigger] runnable_after(
                agents@,
                r.0@,
                scopes_view(initial_scopes@),
                r.1@[j] as int,
            )),
{
    let n = agents.len();
    let mut scheduled: Vec<bool> = Vec::new();
    let mut k: usize = 0;
    while k < n
        invariant
            0 <= k <= n,
            scheduled@.len() == k,
            forall|i: int| 0 <= i < k ==> !(#[trigger] scheduled@[i]),
        decreases n - k,
    {
        scheduled.push(false);
        k = k + 1;
    }
    let mut order: Vec<usize> = Vec::new();
    let mut written: Vec<String> = Vec::new();
    let mut w: usize = 0;
    while w < initial_scopes.len()
        invariant
            0 <= w <= initial_scopes@.len(),
            scopes_view(written@) =~= scopes_view(initial_scopes@).subrange(0, w as int),
        decreases initial_scopes@.len() - w,
    {
        let ghost pre = scopes_view(written@);
        written.push(String::from_str(initial_scopes[w].as_str()));
        proof {
            assert(scopes_view(written@) =~= pre.push(initial_scopes@[w as int]@));
            assert(scopes_view(written@) =~= scopes_view(initial_scopes@).subrange(0, w + 1));
        }
        w = w + 1;
    }
    proof {
        assert(scopes_view(initial_scopes@).subrange(
            0,
            scopes_view(initial_scopes@).len() as int,
        ) =~= scopes_view(initial_scopes@));
    }
    let ghost init = scopes_view(initial_scopes@);
    let mut progressed = true;
    while progressed
        invariant
            scheduled@.len() == agents@.len(),
            n == agents@.len(),
            order@.len() <= agents@.len(),
            order_ok(agents@, order@, init),
            scopes_view(written@) =~= init + order@.map_values(
                |i: usize| agents@[i as int].writes_scope@,
            ),
            forall|i: int|
                0 <= i < agents@.len() ==> (#[trigger] scheduled@[i] == exists|t: int|
                    0 <= t < order@.len() && order@[t] == i),
            !progressed ==> forall|x: int|
                0 <= x < agents@.len() ==> ((#[trigger] scheduled@[x]) || !reads_available(
                    agents@,
                    x,
                    scopes_view(written@),
                )),
        decreases (if progressed {
            1int
        } else {
            0int
        }) + (agents@.len() - order@.len()) * 2,
    {
        progressed = false;
        let ghost len0 = order@.len();
        let mut i: usize = 0;
        while i < n
            invariant
                order@.len() >= len0,
                progressed ==> order@.len() > len0,
                scheduled@.len() == agents@.len(),
                n == agents@.len(),
                order@.len() <= agents@.len(),
                order_ok(agents@, order@, init),
                scopes_view(written@) =~= init + order@.map_values(
                    |i: usize| agents@[i as int].writes_scope@,
                ),
                forall|x: int|
                    0 <= x < agents@.len() ==> (#[trigger] scheduled@[x] == exists|t: int|
                        0 <= t < order@.len() && order@[t] == x),
                !progressed ==> forall|x: int|
                    0 <= x < i ==> ((#[trigger] scheduled@[x]) || !reads_available(
                        agents@,
                        x,
                        scopes_view(written@),
                    )),
            decreases n - i,
        {
            if !scheduled[i] && reads_satisfied(&agents, i, &written) {
                let ghost old_order = order@;
                let ghost old_written = scopes_view(written@);
                let ghost old_scheduled = scheduled@;
                scheduled[i] = true;
                order.push(i);
                written.push(String::from_str(agents[i].writes_scope.as_str()));
                progressed = true;
                proof {
                    let k = old_order.len() as int;
                    assert(order@ =~= old_order.push(i));
                    assert(order@[order@.len() - 1] == i);
                    assert forall|x: int| 0 <= x < agents@.len() implies (#[trigger] scheduled@[x]
                        == appears(order@, x)) by {
                        if x == i as int {
                            assert(order@[order@.len() - 1] == x);
                        } else {
                            assert(scheduled@[x] == old_scheduled[x]);
                            if appears(old_order, x) {
                                let t = choose|t: int|
                                    0 <= t < old_order.len() && old_order[t] == x;
                                assert(order@[t] == x);
                            }
                            if appears(order@, x) {
                                let t = choose|t: int| 0 <= t < order@.len() && order@[t] == x;
                                assert(t < old_order.len());
                                assert(old_order[t] == x);
                            }
                        }
                    }
                    assert forall|a: int, b: int| 0 <= a < b < order@.len() implies order@[a]
                        != order@[b] by {
                        if b == order@.len() - 1 {
                            assert(!old_scheduled[i as int]);
                            if old_order[a] == i as int {
                                assert(appears(old_order, i as int));
                            }
                        }
                    }
                    lemma_count_bound(scheduled@, n as int);
                    lemma_count_scheduled_is_order_len(scheduled@, order@, n as int);
                    assert(scopes_view(written@) =~= old_written.push(
                        agents@[i as int].writes_scope@,
                    ));
                    assert(order@.map_values(|x: usize| agents@[x as int].writes_scope@)
                        =~= old_order.map_values(|x: usize| agents@[x as int].writes_scope@).push(
                        agents@[i as int].writes_scope@,
                    ));
                    assert(scopes_view(written@) =~= init + order@.map_values(
                        |x: usize| agents@[x as int].writes_scope@,
                    ));
                    assert forall|t: int|
                        0 <= t < agents@[i as int].reads_scopes@.len() implies scope_available(
                        agents@,
                        order@,
                        k,
                        init,
                        #[trigger] agents@[i as int].reads_scopes@[t]@,
                    ) by {
                        let sc = agents@[i as int].reads_scopes@[t]@;
                        assert(old_written.contains(sc));
                        let w = choose|w: int| 0 <= w < old_written.len() && old_written[w] == sc;
                        if w < init.len() {
                            assert(init[w] == sc);
                        } else {
                            let ow = old_order.map_values(
                                |x: usize| agents@[x as int].writes_scope@,
                            );
                            assert(ow[w - init.len()] == sc);
                            assert(agents@[order@[w - init.len()] as int].writes_scope@ == sc);
                        }
                    }
                    assert(step_ok(agents@, order@, k, init));
                    assert forall|x: int| 0 <= x < order@.len() - 1 implies #[trigger] step_ok(
                        agents@,
                        order@,
                        x,
                        init,
                    ) by {
                        assert(step_ok(agents@, old_order, x, init));
                        assert(order@[x] == old_order[x]);
                        assert forall|r: int|
                            0 <= r < agents@[order@[x] as int].reads_scopes@.len()
                            implies scope_available(
                            agents@,
                            order@,
                            x,
                            init,
                            #[trigger] agents@[order@[x] as int].reads_scopes@[r]@,
                        ) by {
                            let sc = agents@[order@[x] as int].reads_scopes@[r]@;
                            assert(scope_available(agents@, old_order, x, init, sc));
                            if !init.contains(sc) {
                                let t = choose|t: int|
                                    0 <= t < x && agents@[old_order[t] as int].writes_scope@
                                        == sc;
                                assert(agents@[order@[t] as int].writes_scope@ == sc);
                            }
                        }
                    }
                    assert(order_ok(agents@, order@, init));
                }
            }
            i = i + 1;
        }
    }
    let mut blocked: Vec<usize> = Vec::new();
    let mut j: usize = 0;
    while j < n
        invariant
            0 <= j <= n,
            scheduled@.len() == agents@.len(),
            n == agents@.len(),
            order@.len() <= agents@.len(),
            forall|x: int|
                0 <= x < agents@.len() ==> (#[trigger] scheduled@[x] == exists|t: int|
                    0 <= t < order@.len() && order@[t] == x),
            forall|a: int, b: int| 0 <= a < b < order@.len() ==> order@[a] != order@[b],
            forall|t: int| 0 <= t < order@.len() ==> (#[trigger] order@[t]) < agents@.len(),
            forall|t: int| 0 <= t < blocked@.len() ==> (#[trigger] blocked@[t]) < j,
            forall|t: int|
                0 <= t < blocked@.len() ==> !scheduled@[(#[trigger] blocked@[t]) as int],
            blocked@.len() + count_scheduled(scheduled@, j as int) == j,
            forall|x: int|
                0 <= x < j ==> (scheduled@[x] || exists|t: int|
                    0 <= t < blocked@.len() && blocked@[t] == x),
        decreases n - j,
    {
        proof {
            assert(count_scheduled(scheduled@, j + 1) == count_scheduled(scheduled@, j as int)
                + (if scheduled@[j as int] {
                1int
            } else {
                0int
            }));
        }
        let ghost old_blocked = blocked@;
        if !scheduled[j] {
            blocked.push(j);
        }
        proof {
            assert forall|x: int| 0 <= x < j + 1 implies (scheduled@[x] || exists|t: int|
                0 <= t < blocked@.len() && blocked@[t] == x) by {
                if !scheduled@[x] {
                    if x == j as int {
                        assert(blocked@[old_blocked.len() as int] == x);
                    } else {
                        let t = choose|t: int|
                            0 <= t < old_blocked.len() && old_blocked[t] == x;
                        assert(blocked@[t] == x);
                    }
                }
            }
        }
        j = j + 1;
    }
    proof {
        lemma_count_scheduled_is_order_len(scheduled@, order@, n as int);
        assert(blocked@.len() + count_scheduled(scheduled@, n as int) == n as int);
        assert(count_scheduled(scheduled@, n as int) == order@.len());
        assert(order@.len() + blocked@.len() == agents@.len());
        assert(forall|t: int|
            0 <= t < blocked@.len() ==> (#[trigger] blocked@[t]) < agents@.len());
        assert forall|i: int| 0 <= i < agents@.len() implies (#[trigger] appears(order@, i))
            || appears(blocked@, i) by {
            if scheduled@[i] {
                assert(appears(order@, i));
            } else {
                let t = choose|t: int| 0 <= t < blocked@.len() && blocked@[t] == i;
                assert(appears(blocked@, i));
            }
        }
        assert forall|t: int| 0 <= t < blocked@.len() implies !(#[trigger] runnable_after(
            agents@,
            order@,
            init,
            blocked@[t] as int,
        )) by {
            let x = blocked@[t] as int;
            assert(!scheduled@[x]);
            assert(!reads_available(agents@, x, scopes_view(written@)));
            lemma_unresolvable(agents@, order@, init, scopes_view(written@), x);
        }
    }
    (order, blocked)
}

/// How many of the first `j` agents are scheduled.
pub open spec fn count_scheduled(scheduled: Seq<bool>, j: int) -> int
    decreases j,
{
    if j <= 0 || j > scheduled.len() {
        0
    } else {
        count_scheduled(scheduled, j - 1) + (if scheduled[j - 1] {
            1int
        } else {
            0int
        })
    }
}

proof fn lemma_count_scheduled_is_order_len(scheduled: Seq<bool>, order: Seq<usize>, n: int)
    requires
        scheduled.len() == n,
        0 <= n,
        forall|x: int|
            0 <= x < n ==> (#[trigger] scheduled[x] == exists|t: int|
                0 <= t < order.len() && order[t] == x),
        forall|a: int, b: int| 0 <= a < b < order.len() ==> order[a] != order[b],
        forall|t: int| 0 <= t < order.len() ==> (#[trigger] order[t]) < n,
    ensures
        count_scheduled(scheduled, n) == order.len(),
{
    lemma_count_matches(scheduled, order, n);
    lemma_filter_all(order, n);
}

proof fn lemma_count_bound(scheduled: Seq<bool>, j: int)
    requires
        j >= 0,
    ensures
        count_scheduled(scheduled, j) <= j,
    decreases j,
{
    if j > 0 {
        lemma_count_bound(scheduled, j - 1);
    }
}

proof fn lemma_filter_all(order: Seq<usize>, n: int)
    requires
        forall|t: int| 0 <= t < order.len() ==> (#[trigger] order[t] as int) < n,
    ensures
        order.filter(|x: usize| (x as int) < n) == order,
    decreases order.len(),
{
    reveal(Seq::filter);
    if order.len() > 0 {
        lemma_filter_all(order.drop_last(), n);
    }
}

proof fn lemma_count_matches(scheduled: Seq<bool>, order: Seq<usize>, j: int)
    requires
        scheduled.len() >= j,
        0 <= j,
        forall|x: int|
            0 <= x < scheduled.len() ==> (#[trigger] scheduled[x] == exists|t: int|
                0 <= t < order.len() && order[t] == x),
        forall|a: int, b: int| 0 <= a < b < order.len() ==> order[a] != order[b],
        forall|t: int| 0 <= t < order.len() ==> (#[trigger] order[t]) < scheduled.len(),
    ensures
        count_scheduled(scheduled, j) == order.filter(|x: usize| (x as int) < j).len(),
    decreases j,
{
    if j > 0 {
        lemma_count_matches(scheduled, order, j - 1);
    }
    if j == 0 {
        assert(order.filter(|x: usize| (x as int) < 0) =~= Seq::<usize>::empty()) by {
            lemma_filter_none(order);
        }
    } else {
        if scheduled[j - 1] {
            let t = choose|t: int| 0 <= t < order.len() && order[t] == j - 1;
            lemma_filter_count_with(order, j, t);
        } else {
            lemma_filter_count_without(order, j);
        }
    }
}

proof fn lemma_filter_none(order: Seq<usize>)
    ensures
        order.filter(|x: usize| (x as int) < 0).len() == 0,
    decreases order.len(),
{
    reveal(Seq::filter);
    if order.len() > 0 {
        lemma_filter_none(order.drop_last());
    }
}

proof fn lemma_filter_count_with(order: Seq<usize>, j: int, t: int)
    requires
        0 <= t < order.len(),
        order[t] == j - 1,
        forall|a: int, b: int| 0 <= a < b < order.len() ==> order[a] != order[b],
    ensures
        order.filter(|x: usize| (x as int) < j).len() == order.filter(
            |x: usize| (x as int) < j - 1,
        ).len() + 1,
    decreases order.len(),
{
    reveal(Seq::filter);
    if order.len() > 0 {
        if t == order.len() - 1 {
            lemma_filter_agree(order.drop_last(), j);
        } else {
            lemma_filter_count_with(order.drop_last(), j, t);
        }
    }
}

proof fn lemma_filter_count_without(order: Seq<usize>, j: int)
    requires
        forall|t: int| 0 <= t < order.len() ==> order[t] != j - 1,
    ensures
        order.filter(|x: usize| (x as int) < j).len() == order.filter(
            |x: usize| (x as int) < j - 1,
        ).len(),
    decreases order.len(),
{
    reveal(Seq::filter);
    if order.len() > 0 {
        lemma_filter_count_without(order.drop_last(), j);
    }
}

proof fn lemma_filter_agree(order: Seq<usize>, j: int)
    requires
        forall|t: int| 0 <= t < order.len() ==> order[t] != j - 1,
    ensures
        order.filter(|x: usize| (x as int) < j) == order.filter(|x: usize| (x as int) < j - 1),
    decreases order.len(),
{
    reveal(Seq::filter);
    if order.len() > 0 {
        lemma_filter_agree(order.drop_last(), j);
    }
}

/// The bundle as labelled string pairs, the form the fingerprint holds.
pub open spec fn labelled(bundle: Seq<(DataSource, Seq<char>)>) -> Seq<(Seq<char>, Seq<char>)> {
    bundle.map_values(|p: (DataSource, Seq<char>)| (label_of(p.0), p.1))
}

fn label_bundle(bundle: &Vec<(DataSource, String)>) -> (r: Vec<(String, String)>)
    ensures
        pairs_view(r@) == labelled(bundle_view(bundle@)),
{
    let mut r: Vec<(String, String)> = Vec::new();
    let mut i: usize = 0;
    while i < bundle.len()
        invariant
            0 <= i <= bundle@.len(),
            pairs_view(r@) =~= labelled(bundle_view(bundle@)).subrange(0, i as int),
        decreases bundle@.len() - i,
    {
        let ghost pre = pairs_view(r@);
        r.push(
            (
                String::from_str(source_label(bundle[i].0)),
                String::from_str(bundle[i].1.as_str()),
            ),
        );
        proof {
            assert(labelled(bundle_view(bundle@))[i as int] == (
                label_of(bundle@[i as int].0),
                bundle@[i as int].1@,
            ));
            assert(pairs_view(r@) =~= pre.push(
                (label_of(bundle@[i as int].0), bundle@[i as int].1@),
            ));
            assert(pairs_view(r@) =~= labelled(bundle_view(bundle@)).subrange(0, i + 1));
        }
        i = i + 1;
    }
    proof {
        assert(labelled(bundle_view(bundle@)).subrange(
            0,
            labelled(bundle_view(bundle@)).len() as int,
        ) =~= labelled(bundle_view(bundle@)));
    }
    r
}

fn copy_pairs(v: &Vec<(String, String)>) -> (r: Vec<(String, String)>)
    ensures
        pairs_view(r@) == pairs_view(v@),
{
    let mut r: Vec<(String, String)> = Vec::new();
    let mut i: usize = 0;
    while i < v.len()
        invariant
            0 <= i <= v@.len(),
            pairs_view(r@) =~= pairs_view(v@).subrange(0, i as int),
        decreases v@.len() - i,
    {
        let ghost pre = pairs_view(r@);
        r.push((String::from_str(v[i].0.as_str()), String::from_str(v[i].1.as_str())));
        proof {
            assert(pairs_view(r@) =~= pre.push((v@[i as int].0@, v@[i as int].1@)));
            assert(pairs_view(r@) =~= pairs_view(v@).subrange(0, i + 1));
        }
        i = i + 1;
    }
    proof {
        assert(pairs_view(v@).subrange(0, pairs_view(v@).len() as int) =~= pairs_view(v@));
    }
    r
}

} // verus!
