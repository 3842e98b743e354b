//! Compilation of a parsed `Pipeline` into an executable `SignalGraph`,
//! and the per-frame semantic model of parallel mixing.
//!
//! Each stage compiles to the parallel-sum composition of its sources; an
//! empty stage (from a trailing `|`) compiles to a single `Silence` node.
//! Stages are kept in declared order: series composition between
//! pure-generator stages is an ordered list of per-stage outputs, not a
//! signal wire from one stage into the next. The graph's structure is
//! fixed once compiled; each node's runtime state (oscillator phase,
//! noise filter state) lives with the sample evaluator outside this crate.
//!
//! The mixing model: a stage's per-frame output is the arithmetic sum of
//! its children's per-frame outputs, one channel at a time. The laws at
//! the end of this module state that this sum is order-independent and
//! that a stage of silence contributes zero.

use vstd::prelude::*;
use crate::lexer::{lex, spec_lex_from, LexError, Number};
use crate::parser::{parse, spec_parse_from, Pipeline, SoundSpec, ParseError};

verus! {

/// One compiled node of the signal graph.
#[derive(Clone, Copy, PartialEq, Eq, Structural, Debug)]
pub enum NodeKind {
    Sine { frequency: Number },
    White,
    Brown,
    Pink,
    Silence,
}

/// The compiled, executable counterpart of a `Pipeline`: one node list
/// per stage, in declared order, every stage non-empty.
#[derive(Clone, PartialEq, Eq, Debug)]
pub struct SignalGraph {
    pub stages: Vec<Vec<NodeKind>>,
}

/// The node a single source compiles to.
pub open spec fn node_of(s: SoundSpec) -> NodeKind {
    match s {
        SoundSpec::Sine { frequency } => NodeKind::Sine { frequency },
        SoundSpec::White => NodeKind::White,
        SoundSpec::Brown => NodeKind::Brown,
        SoundSpec::Pink => NodeKind::Pink,
        SoundSpec::Silence => NodeKind::Silence,
    }
}

/// The nodes a stage compiles to: its sources in order, or a single
/// `Silence` node for an empty stage.
pub open spec fn spec_compile_stage(stage: Seq<SoundSpec>) -> Seq<NodeKind> {
    if stage.len() == 0 {
        seq![NodeKind::Silence]
    } else {
        stage.map_values(|s: SoundSpec| node_of(s))
    }
}

impl SignalGraph {
    /// At least one stage, and no empty stage.
    pub open spec fn wf(self) -> bool {
        &&& self.stages@.len() >= 1
        &&& forall|i: int| 0 <= i < self.stages@.len() ==> #[trigger] self.stages@[i]@.len() >= 1
    }
}

fn node_for(s: &SoundSpec) -> (n: NodeKind)
    ensures
        n == node_of(*s),
{
    match s {
        SoundSpec::Sine { frequency } => NodeKind::Sine { frequency: *frequency },
        SoundSpec::White => NodeKind::White,
        SoundSpec::Brown => NodeKind::Brown,
        SoundSpec::Pink => NodeKind::Pink,
        SoundSpec::Silence => NodeKind::Silence,
    }
}

/// Compile a pipeline into its signal graph: stage for stage, node for
/// node, with empty stages lowered to `Silence`. Compilation happens
/// exactly once, before streaming begins; nothing mutates the graph after.
pub fn compile(pipeline: &Pipeline) -> (g: SignalGraph)
    requires
        pipeline@.len() >= 1,
    ensures
        g.wf(),
        g.stages@.len() == pipeline@.len(),
        forall|i: int|
            0 <= i < pipeline@.len() ==> #[trigger] g.stages@[i]@ == spec_compile_stage(
                pipeline@[i]@,
            ),
{
    let n = pipeline.len();
    let mut stages: Vec<Vec<NodeKind>> = Vec::new();
    let mut i: usize = 0;
    while i < n
        invariant
            i <= n,
            n == pipeline@.len(),
            stages@.len() == i,
            forall|k: int|
                0 <= k < i ==> #[trigger] stages@[k]@ == spec_compile_stage(pipeline@[k]@),
            forall|k: int| 0 <= k < i ==> #[trigger] stages@[k]@.len() >= 1,
        decreases n - i,
    {
        let stage = &pipeline[i];
        let sn = stage.len();
        let mut nodes: Vec<NodeKind> = Vec::new();
        if sn == 0 {
            nodes.push(NodeKind::Silence);
            proof {
                assert(nodes@ =~= seq![NodeKind::Silence]);
            }
        } else {
            let mut j: usize = 0;
            while j < sn
                invariant
                    j <= sn,
                    sn == stage@.len(),
                    nodes@.len() == j,
                    forall|k: int| 0 <= k < j ==> #[trigger] nodes@[k] == node_of(stage@[k]),
                decreases sn - j,
            {
                let node = node_for(&stage[j]);
                nodes.push(node);
                j = j + 1;
            }
            proof {
                assert(nodes@ =~= stage@.map_values(|s: SoundSpec| node_of(s)));
            }
        }
        stages.push(nodes);
        i = i + 1;
    }
    SignalGraph { stages }
}

/// Why a source text yields no graph.
#[derive(Clone, Copy, PartialEq, Eq, Structural, Debug)]
pub enum SourceError {
    Lex(LexError),
    Parse(ParseError),
}

/// From source text to compiled graph: lex, parse, compile. Succeeds on
/// exactly the inputs that lex and parse, and returns the graph of the
/// parsed pipeline, stage for stage.
pub fn compile_source(input: &Vec<u8>) -> (r: Result<SignalGraph, SourceError>)
    ensures
        match spec_lex_from(input@, 0) {
            Err(e) => r matches Err(se) && se == SourceError::Lex(e),
            Ok(toks) => match spec_parse_from(toks, 0) {
                Err(e) => r matches Err(se) && se == SourceError::Parse(e),
                Ok(p) => r matches Ok(g) && g.wf() && g.stages@.len() == p.len() && (forall|
                    i: int,
                |
                    0 <= i < p.len() ==> #[trigger] g.stages@[i]@ == spec_compile_stage(p[i])),
            },
        },
{
    let toks = match lex(input) {
        Ok(toks) => toks,
        Err(e) => {
            return Err(SourceError::Lex(e));
        },
    };
    let pipeline = match parse(&toks) {
        Ok(p) => p,
        Err(e) => {
            return Err(SourceError::Parse(e));
        },
    };
    let g = compile(&pipeline);
    proof {
        let p = spec_parse_from(toks@, 0)->Ok_0;
        assert(forall|i: int| 0 <= i < p.len() ==> pipeline@[i]@ == #[trigger] p[i]);
    }
    Ok(g)
}

/// The per-frame output of a parallel mix: the sum of its children's
/// outputs on one channel, modelled over the integers.
pub open spec fn mix(outs: Seq<int>) -> int
    decreases outs.len(),
{
    if outs.len() == 0 {
        0
    } else {
        outs[0] + mix(outs.subrange(1, outs.len() as int))
    }
}

/// What the model pins down about one node's per-frame output: silence
/// emits exactly zero; every other node's output is unconstrained here.
pub open spec fn node_out_admissible(n: NodeKind, out: int) -> bool {
    match n {
        NodeKind::Silence => out == 0,
        _ => true,
    }
}

/// `outs` assigns each node of the stage an admissible per-frame output.
pub open spec fn stage_outs_admissible(nodes: Seq<NodeKind>, outs: Seq<int>) -> bool {
    &&& nodes.len() == outs.len()
    &&& forall|i: int| 0 <= i < nodes.len() ==> node_out_admissible(nodes[i], #[trigger] outs[i])
}

/// Mixing distributes over concatenation of child groups.
pub proof fn lemma_mix_concat(a: Seq<int>, b: Seq<int>)
    ensures
        mix(a + b) == mix(a) + mix(b),
    decreases a.len(),
{
    if a.len() == 0 {
        assert(a + b =~= b);
    } else {
        assert((a + b).subrange(1, (a + b).len() as int) =~= a.subrange(1, a.len() as int) + b);
        assert((a + b)[0] == a[0]);
        lemma_mix_concat(a.subrange(1, a.len() as int), b);
    }
}

/// Law: parallel-sum mixing is commutative over the declared order of the
/// children. Two groups of sources, given the same internal node states
/// and hence the same per-frame outputs, mix to the same sample in either
/// order; with `lemma_mix_concat`, any regrouping (associativity) leaves
/// the mix unchanged as well.
pub proof fn lemma_mix_commutes(a: Seq<int>, b: Seq<int>)
    ensures
        mix(a + b) == mix(b + a),
{
    lemma_mix_concat(a, b);
    lemma_mix_concat(b, a);
}

/// Law: a stage made only of silence nodes mixes to exactly zero on every
/// channel of every frame, under any admissible output assignment.
pub proof fn lemma_silence_stage_zero(nodes: Seq<NodeKind>, outs: Seq<int>)
    requires
        stage_outs_admissible(nodes, outs),
        forall|i: int| 0 <= i < nodes.len() ==> #[trigger] nodes[i] == NodeKind::Silence,
    ensures
        mix(outs) == 0,
    decreases outs.len(),
{
    if outs.len() > 0 {
        assert(node_out_admissible(nodes[0], outs[0]));
        let nrest = nodes.subrange(1, nodes.len() as int);
        let orest = outs.subrange(1, outs.len() as int);
        assert(stage_outs_admissible(nrest, orest)) by {
            assert(forall|i: int|
                0 <= i < nrest.len() ==> node_out_admissible(nrest[i], #[trigger] orest[i]))
                by {
                assert(forall|i: int|
                    0 <= i < nrest.len() ==> nrest[i] == nodes[i + 1] && orest[i] == outs[i + 1]);
            }
        }
        assert(forall|i: int| 0 <= i < nrest.len() ==> #[trigger] nrest[i] == NodeKind::Silence)
            by {
            assert(forall|i: int| 0 <= i < nrest.len() ==> nrest[i] == nodes[i + 1]);
        }
        lemma_silence_stage_zero(nrest, orest);
    }
}

} // verus!
