//! Padding settings: which frames are padded and by how much.
use crate::decimal;
use crate::shaper::EncodingType;
use vstd::prelude::*;
use vstd::string::*;

verus! {

/// Padding outside all stages: data below the threshold gets between
/// `padding_range[0]` and `padding_range[1]` bytes.
#[derive(Debug, Clone, Copy)]
pub struct PaddingConfig {
    pub padding_threshold: usize,
    pub padding_range: [usize; 2],
}

/// Padding up to and including the frame `count`, or the upper end of `count_range`.
#[derive(Debug, Clone, Copy)]
pub struct StageConfig {
    pub count: Option<usize>,
    pub count_range: Option<[usize; 2]>,
    pub padding_threshold: usize,
    pub padding_range: [usize; 2],
}

/// The traffic shaping settings.
#[derive(Debug, Clone)]
pub struct TrafficConfig {
    pub global: PaddingConfig,
    pub stages: Vec<StageConfig>,
    pub encoding_type: EncodingType,
    pub max_download_bytes: Option<u64>,
}

/// A padding range whose lower end exceeds its upper end.
#[derive(Debug, Clone, Copy, PartialEq, Eq, Structural)]
pub enum PaddingRangeError {
    Global { low: usize, high: usize },
    Stage { index: usize, low: usize, high: usize },
}

/// The two ends of a range in words.
pub open spec fn range_text(low: usize, high: usize) -> Seq<char> {
    "padding_range low ("@ + decimal::decimal(low as nat) + ") > high ("@ + decimal::decimal(
        high as nat,
    ) + ")"@
}

impl PaddingRangeError {
    /// The error in words.
    pub open spec fn text(self) -> Seq<char> {
        match self {
            PaddingRangeError::Global { low, high } => "traffic_shaping.global."@ + range_text(
                low,
                high,
            ),
            PaddingRangeError::Stage { index, low, high } => "traffic_shaping.stages["@
                + decimal::decimal(index as nat) + "]."@ + range_text(low, high),
        }
    }

    /// The error in words.
    pub fn message(&self) -> (r: String)
        ensures
            r@ == self.text(),
    {
        let mut out = String::new();
        let (low, high): (usize, usize) = match self {
            PaddingRangeError::Global { low, high } => {
                out.append("traffic_shaping.global.");
                (*low, *high)
            },
            PaddingRangeError::Stage { index, low, high } => {
                out.append("traffic_shaping.stages[");
                decimal::push_decimal(&mut out, *index as u64);
                out.append("].");
                (*low, *high)
            },
        };
        let ghost head = out@;
        out.append("padding_range low (");
        decimal::push_decimal(&mut out, low as u64);
        out.append(") > high (");
        decimal::push_decimal(&mut out, high as u64);
        out.append(")");
        proof {
            assert(out@ =~= head + range_text(low, high));
            assert(out@ =~= self.text());
        }
        out
    }
}

/// The range runs upwards.
pub open spec fn is_ordered(range: [usize; 2]) -> bool {
    range[0] <= range[1]
}

impl TrafficConfig {
    /// What is wrong with the settings, the global range first, then the first bad stage.
    pub open spec fn defect(self) -> Option<PaddingRangeError> {
        if !is_ordered(self.global.padding_range) {
            Some(
                PaddingRangeError::Global {
                    low: self.global.padding_range[0],
                    high: self.global.padding_range[1],
                },
            )
        } else {
            stage_defect(self.stages@, 0)
        }
    }

    /// Checks that every padding range runs upwards.
    pub fn validate(&self) -> (r: Result<(), PaddingRangeError>)
        ensures
            match self.defect() {
                Some(e) => r == Err::<(), PaddingRangeError>(e),
                None => r is Ok,
            },
            r is Ok <==> is_ordered(self.global.padding_range) && forall|i: int|
                0 <= i < self.stages@.len() ==> is_ordered(#[trigger] self.stages@[i].padding_range),
    {
        if self.global.padding_range[0] > self.global.padding_range[1] {
            return Err(
                PaddingRangeError::Global {
                    low: self.global.padding_range[0],
                    high: self.global.padding_range[1],
                },
            );
        }
        let mut i: usize = 0;
        while i < self.stages.len()
            invariant
                i <= self.stages@.len(),
                is_ordered(self.global.padding_range),
                stage_defect(self.stages@, 0) == stage_defect(self.stages@, i as nat),
                forall|j: int|
                    0 <= j < i ==> is_ordered(#[trigger] self.stages@[j].padding_range),
            decreases self.stages@.len() - i,
        {
            let stage = &self.stages[i];
            if stage.padding_range[0] > stage.padding_range[1] {
                proof {
                    assert(!is_ordered(self.stages@[i as int].padding_range));
                }
                return Err(
                    PaddingRangeError::Stage {
                        index: i,
                        low: stage.padding_range[0],
                        high: stage.padding_range[1],
                    },
                );
            }
            i = i + 1;
        }
        Ok(())
    }
}

/// The first stage from `i` on whose range runs downwards.
pub open spec fn stage_defect(stages: Seq<StageConfig>, i: nat) -> Option<PaddingRangeError>
    decreases stages.len() - i,
{
    if i >= stages.len() {
        None
    } else if !is_ordered(stages[i as int].padding_range) {
        Some(
            PaddingRangeError::Stage {
                index: i as usize,
                low: stages[i as int].padding_range[0],
                high: stages[i as int].padding_range[1],
            },
        )
    } else {
        stage_defect(stages, i + 1)
    }
}

/// A stage with the number of its last frame.
#[derive(Debug, Clone, Copy)]
pub struct ResolvedStage {
    pub end_count: usize,
    pub padding_threshold: usize,
    pub padding_range: [usize; 2],
}

/// The stage that a setting describes. A stage without a count covers no frame.
pub open spec fn resolved_stage(s: StageConfig) -> ResolvedStage {
    ResolvedStage {
        end_count: match (s.count, s.count_range) {
            (Some(n), _) => n,
            (None, Some(range)) => range[1],
            (None, None) => 0,
        },
        padding_threshold: s.padding_threshold,
        padding_range: s.padding_range,
    }
}

/// The stages run in the order of their last frames.
pub open spec fn in_packet_order(stages: Seq<ResolvedStage>) -> bool {
    forall|i: int, j: int|
        0 <= i <= j < stages.len() ==> (#[trigger] stages[i]).end_count <= (
        #[trigger] stages[j]).end_count
}

/// Settings ready for use.
#[derive(Debug, Clone)]
pub struct ResolvedShaperConfig {
    pub stages: Vec<ResolvedStage>,
    pub global_threshold: usize,
    pub global_range: [usize; 2],
    pub encoding: EncodingType,
}

impl ResolvedShaperConfig {
    /// Puts the stages into packet order.
    pub fn resolve(config: &TrafficConfig) -> (r: Self)
        ensures
            r.stages@.to_multiset() == config.stages@.map_values(
                |s: StageConfig| resolved_stage(s),
            ).to_multiset(),
            in_packet_order(r.stages@),
            r.global_threshold == config.global.padding_threshold,
            r.global_range == config.global.padding_range,
            r.encoding == config.encoding_type,
    {
        let mut stages: Vec<ResolvedStage> = Vec::new();
        let ghost mapped = config.stages@.map_values(|s: StageConfig| resolved_stage(s));
        proof {
            assert(stages@ =~= mapped.take(0));
        }
        let mut i: usize = 0;
        while i < config.stages.len()
            invariant
                i <= config.stages@.len(),
                mapped == config.stages@.map_values(|s: StageConfig| resolved_stage(s)),
                stages@.to_multiset() =~= mapped.take(i as int).to_multiset(),
                in_packet_order(stages@),
            decreases config.stages@.len() - i,
        {
            let s: StageConfig = config.stages[i];
            let end_count: usize = match s.count {
                Some(n) => n,
                None => match s.count_range {
                    Some(range) => range[1],
                    None => 0,
                },
            };
            let stage = ResolvedStage {
                end_count,
                padding_threshold: s.padding_threshold,
                padding_range: s.padding_range,
            };
            proof {
                assert(stage == mapped[i as int]);
                assert(mapped.take(i as int + 1) =~= mapped.take(i as int).push(stage));
                vstd::seq_lib::to_multiset_build(mapped.take(i as int), stage);
            }
            insert_in_order(&mut stages, stage);
            i = i + 1;
        }
        proof {
            assert(mapped.take(i as int) =~= mapped);
        }
        ResolvedShaperConfig {
            stages,
            global_threshold: config.global.padding_threshold,
            global_range: config.global.padding_range,
            encoding: config.encoding_type,
        }
    }
}

/// Inserts a stage behind those that end no later.
fn insert_in_order(stages: &mut Vec<ResolvedStage>, stage: ResolvedStage)
    requires
        in_packet_order(old(stages)@),
    ensures
        in_packet_order(final(stages)@),
        final(stages)@.to_multiset() == old(stages)@.to_multiset().insert(stage),
{
    let mut at: usize = stages.len();
    while at > 0 && stages[at - 1].end_count > stage.end_count
        invariant
            at <= stages@.len(),
            forall|j: int| at <= j < stages@.len() ==> stages@[j].end_count > stage.end_count,
        decreases at,
    {
        at = at - 1;
    }
    let ghost before = stages@;
    stages.insert(at, stage);
    proof {
        vstd::seq_lib::to_multiset_insert(before, at as int, stage);
        assert(stages@ =~= before.insert(at as int, stage));
        assert forall|i: int, j: int| 0 <= i <= j < stages@.len() implies (
        #[trigger] stages@[i]).end_count <= (#[trigger] stages@[j]).end_count by {
            let pi = if i < at {
                i
            } else {
                i - 1
            };
            let pj = if j < at {
                j
            } else {
                j - 1
            };
            if i != at && j != at {
                assert(before[pi].end_count <= before[pj].end_count);
            } else if i == at && j > at {
                assert(before[pj].end_count > stage.end_count);
            } else if j == at && i < at {
                assert(before[i].end_count <= before[at as int - 1].end_count);
            }
        }
    }
}

} // verus!
