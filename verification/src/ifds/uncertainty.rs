//! Explicit uncertainty, regional coverage, and bounded report output.
use vstd::prelude::*;
use crate::ifds::model::{
    insert_diagnostic, insert_frontier, AnalysisLimitKind, AnalysisRegion, Coverage, Diagnostic,
    DiagnosticCode, Direction, EvidenceKind, LimitReason, NodeId, RelationPresence, SourceSpan,
    UnknownFrontier,
};

verus! {

/// The value of a region used as a key: its name and direction.
pub open spec fn region_key(r: AnalysisRegion) -> (Seq<char>, Direction) {
    (r.name@, r.direction)
}

/// The coverage recorded for a region key in a list of entries.
pub open spec fn coverage_of(entries: Seq<(AnalysisRegion, Coverage)>, key: (Seq<char>, Direction)) -> Option<
    Coverage,
>
    decreases entries.len(),
{
    if entries.len() == 0 {
        None
    } else if region_key(entries.last().0) == key {
        Some(entries.last().1)
    } else {
        coverage_of(entries.drop_last(), key)
    }
}

#[derive(Debug, Clone, PartialEq, Eq)]
pub struct UncertaintyTracker {
    coverage: Vec<(AnalysisRegion, Coverage)>,
    diagnostics: Vec<Diagnostic>,
    frontiers: Vec<UnknownFrontier>,
}

impl Default for UncertaintyTracker {
    fn default() -> (res: Self)
        ensures
            res.coverage_map() == Map::<(Seq<char>, Direction), Coverage>::empty(),
            res.diagnostics_spec().len() == 0,
            res.frontiers_spec().len() == 0,
    {
        UncertaintyTracker { coverage: Vec::new(), diagnostics: Vec::new(), frontiers: Vec::new() }
    }
}

impl UncertaintyTracker {
    /// Coverage of every registered region.
    pub closed spec fn coverage_map(self) -> Map<(Seq<char>, Direction), Coverage> {
        Map::new(
            |key: (Seq<char>, Direction)| coverage_of(self.coverage@, key) is Some,
            |key: (Seq<char>, Direction)| coverage_of(self.coverage@, key).unwrap(),
        )
    }

    /// Every diagnostic recorded so far.
    pub closed spec fn diagnostics_spec(self) -> Seq<Diagnostic> {
        self.diagnostics@
    }

    /// Every frontier recorded so far.
    pub closed spec fn frontiers_spec(self) -> Seq<UnknownFrontier> {
        self.frontiers@
    }

    fn position(&self, region: &AnalysisRegion) -> (res: Option<usize>)
        ensures
            match res {
                Some(i) => i < self.coverage@.len() && coverage_of(self.coverage@, region_key(*region))
                    == Some(self.coverage@[i as int].1) && region_key(self.coverage@[i as int].0)
                    == region_key(*region) && forall|j: int|
                    i < j < self.coverage@.len() ==> region_key(self.coverage@[j].0) != region_key(
                        *region,
                    ),
                None => coverage_of(self.coverage@, region_key(*region)) is None,
            },
    {
        let mut i = self.coverage.len();
        proof {
            assert(self.coverage@.subrange(0, i as int) =~= self.coverage@);
        }
        while i > 0
            invariant
                i <= self.coverage@.len(),
                forall|j: int|
                    i <= j < self.coverage@.len() ==> region_key(self.coverage@[j].0) != region_key(
                        *region,
                    ),
                coverage_of(self.coverage@, region_key(*region)) == coverage_of(
                    self.coverage@.subrange(0, i as int),
                    region_key(*region),
                ),
            decreases i,
        {
            proof {
                let s = self.coverage@.subrange(0, i as int);
                assert(s.drop_last() =~= self.coverage@.subrange(0, i - 1));
            }
            if self.coverage[i - 1].0.same(region) {
                return Some(i - 1);
            }
            i = i - 1;
        }
        None
    }

    proof fn lemma_coverage_push(
        entries: Seq<(AnalysisRegion, Coverage)>,
        item: (AnalysisRegion, Coverage),
        key: (Seq<char>, Direction),
    )
        ensures
            coverage_of(entries.push(item), key) == if region_key(item.0) == key {
                Some(item.1)
            } else {
                coverage_of(entries, key)
            },
    {
        assert(entries.push(item).drop_last() =~= entries);
    }

    proof fn lemma_coverage_update(
        entries: Seq<(AnalysisRegion, Coverage)>,
        i: int,
        value: Coverage,
        key: (Seq<char>, Direction),
    )
        requires
            0 <= i < entries.len(),
            forall|j: int| i < j < entries.len() ==> region_key(entries[j].0) != region_key(
                entries[i].0,
            ),
        ensures
            coverage_of(entries.update(i, (entries[i].0, value)), key) == if region_key(entries[i].0)
                == key {
                Some(value)
            } else {
                coverage_of(entries, key)
            },
        decreases entries.len(),
    {
        let updated = entries.update(i, (entries[i].0, value));
        if i == entries.len() - 1 {
            assert(updated.drop_last() =~= entries.drop_last());
        } else {
            assert(updated.drop_last() =~= entries.drop_last().update(i, (entries[i].0, value)));
            Self::lemma_coverage_update(entries.drop_last(), i, value, key);
        }
    }

    /// Records a region's initial coverage unless the region is already known.
    pub fn register(&mut self, region: AnalysisRegion, coverage: Coverage)
        ensures
            final(self).coverage_map() == if old(self).coverage_map().contains_key(region_key(region)) {
                old(self).coverage_map()
            } else {
                old(self).coverage_map().insert(region_key(region), coverage)
            },
            final(self).diagnostics_spec() == old(self).diagnostics_spec(),
            final(self).frontiers_spec() == old(self).frontiers_spec(),
    {
        if self.position(&region).is_none() {
            let ghost before = self.coverage@;
            let ghost key0 = region_key(region);
            self.coverage.push((region, coverage));
            proof {
                assert forall|key: (Seq<char>, Direction)|
                    #[trigger] coverage_of(self.coverage@, key) == or_if_key_spec(coverage_of(before, key), key, key0, coverage) by {
                    Self::lemma_coverage_push(before, (region, coverage), key);
                }
                assert(self.coverage_map() =~= old(self).coverage_map().insert(key0, coverage));
            }
        } else {
            proof {
                assert(self.coverage_map() =~= old(self).coverage_map());
            }
        }
    }

    /// Marks a region as affected by an unknown: complete coverage becomes
    /// partial, an unknown region is recorded as partial, and the diagnostic
    /// and frontier are recorded. Other regions keep their coverage.
    pub fn mark_unknown(&mut self, region: AnalysisRegion, diagnostic: Diagnostic, frontier: UnknownFrontier)
        ensures
            final(self).coverage_map() == old(self).coverage_map().insert(
                region_key(region),
                match old(self).coverage_map().get(region_key(region)) {
                    Some(Coverage::Complete) | None => Coverage::Partial,
                    Some(c) => c,
                },
            ),
            exists|d: int|
                0 <= d < final(self).diagnostics_spec().len() && crate::ifds::model::diagnostic_same(
                    #[trigger] final(self).diagnostics_spec()[d],
                    diagnostic,
                ),
            exists|f: int|
                0 <= f < final(self).frontiers_spec().len() && crate::ifds::model::frontier_same(
                    #[trigger] final(self).frontiers_spec()[f],
                    frontier,
                ),
            forall|f: int| 0 <= f < old(self).frontiers_spec().len() ==> final(self).frontiers_spec()[f]
                == #[trigger] old(self).frontiers_spec()[f],
            (exists|i: int|
                0 <= i < old(self).diagnostics_spec().len() && crate::ifds::model::diagnostic_same(
                    old(self).diagnostics_spec()[i],
                    diagnostic,
                )) ==> final(self).diagnostics_spec() == old(self).diagnostics_spec(),
            !(exists|i: int|
                0 <= i < old(self).diagnostics_spec().len() && crate::ifds::model::diagnostic_same(
                    old(self).diagnostics_spec()[i],
                    diagnostic,
                )) ==> final(self).diagnostics_spec() == old(self).diagnostics_spec().push(diagnostic),
            (exists|i: int|
                0 <= i < old(self).frontiers_spec().len() && crate::ifds::model::frontier_same(
                    old(self).frontiers_spec()[i],
                    frontier,
                )) ==> final(self).frontiers_spec() == old(self).frontiers_spec(),
            !(exists|i: int|
                0 <= i < old(self).frontiers_spec().len() && crate::ifds::model::frontier_same(
                    old(self).frontiers_spec()[i],
                    frontier,
                )) ==> final(self).frontiers_spec() == old(self).frontiers_spec().push(frontier),
    {
        let ghost key0 = region_key(region);
        match self.position(&region) {
            Some(i) => {
                if self.coverage[i].1 == Coverage::Complete {
                    let ghost before = self.coverage@;
                    let entry_region = self.coverage[i].0.clone();
                    self.coverage.set(i, (entry_region, Coverage::Partial));
                    proof {
                        assert(self.coverage@ == before.update(i as int, (before[i as int].0, Coverage::Partial)));
                        assert forall|key: (Seq<char>, Direction)|
                            #[trigger] coverage_of(self.coverage@, key) == or_if_key_spec(coverage_of(before, key), key, key0, Coverage::Partial) by {
                            Self::lemma_coverage_update(before, i as int, Coverage::Partial, key);
                        }
                    }
                } else {
                    proof {
                        assert(coverage_of(self.coverage@, key0) == Some(self.coverage@[i as int].1));
                    }
                }
            },
            None => {
                let ghost before = self.coverage@;
                self.coverage.push((region, Coverage::Partial));
                proof {
                    assert forall|key: (Seq<char>, Direction)|
                        #[trigger] coverage_of(self.coverage@, key) == or_if_key_spec(coverage_of(before, key), key, key0, Coverage::Partial) by {
                        Self::lemma_coverage_push(before, (region, Coverage::Partial), key);
                    }
                }
            },
        }
        proof {
            let target = old(self).coverage_map().insert(
                key0,
                match old(self).coverage_map().get(key0) {
                    Some(Coverage::Complete) | None => Coverage::Partial,
                    Some(c) => c,
                },
            );
            assert(self.coverage_map() =~= target);
        }
        let ghost d0 = diagnostic;
        let ghost f0 = frontier;
        insert_diagnostic(&mut self.diagnostics, diagnostic);
        insert_frontier(&mut self.frontiers, frontier);
        proof {
            if exists|i: int| 0 <= i < old(self).frontiers@.len() && crate::ifds::model::frontier_same(
                old(self).frontiers@[i],
                f0,
            ) {
                let i = choose|i: int|
                    0 <= i < old(self).frontiers@.len() && crate::ifds::model::frontier_same(
                        old(self).frontiers@[i],
                        f0,
                    );
                assert(crate::ifds::model::frontier_same(self.frontiers_spec()[i], f0));
            } else {
                assert(self.frontiers@[self.frontiers@.len() - 1] == f0);
                assert(crate::ifds::model::frontier_same(
                    self.frontiers_spec()[self.frontiers_spec().len() - 1],
                    f0,
                ));
            }
            if exists|i: int| 0 <= i < old(self).diagnostics@.len() && crate::ifds::model::diagnostic_same(
                old(self).diagnostics@[i],
                d0,
            ) {
                let i = choose|i: int|
                    0 <= i < old(self).diagnostics@.len() && crate::ifds::model::diagnostic_same(
                        old(self).diagnostics@[i],
                        d0,
                    );
                assert(crate::ifds::model::diagnostic_same(self.diagnostics_spec()[i], d0));
            } else {
                assert(self.diagnostics@[self.diagnostics@.len() - 1] == d0);
                assert(crate::ifds::model::diagnostic_same(
                    self.diagnostics_spec()[self.diagnostics_spec().len() - 1],
                    d0,
                ));
            }
        }
    }

    pub fn coverage(&self, region: &AnalysisRegion) -> (res: Option<Coverage>)
        ensures
            res == self.coverage_map().get(region_key(*region)),
    {
        match self.position(region) {
            Some(i) => Some(self.coverage[i].1),
            None => None,
        }
    }

    /// The registered regions with their coverage, as recorded.
    pub fn region_completeness(&self) -> (res: &Vec<(AnalysisRegion, Coverage)>)
        ensures
            forall|key: (Seq<char>, Direction)| #[trigger] coverage_of(res@, key) == (if self.coverage_map().dom().contains(
                key,
            ) {
                Some(self.coverage_map()[key])
            } else {
                None
            }),
    {
        &self.coverage
    }

    pub fn diagnostics(&self) -> (res: &Vec<Diagnostic>)
        ensures
            res@ == self.diagnostics_spec(),
    {
        &self.diagnostics
    }

    /// The frontiers recorded so far, without repeats.
    pub fn frontiers(&self) -> (res: &Vec<UnknownFrontier>)
        ensures
            res@ == self.frontiers_spec(),
    {
        &self.frontiers
    }
}

/// Helper: `Some(value)` at `target`, else the existing entry.
pub open spec fn or_if_key_spec(
    existing: Option<Coverage>,
    key: (Seq<char>, Direction),
    target: (Seq<char>, Direction),
    value: Coverage,
) -> Option<Coverage> {
    if key == target {
        Some(value)
    } else {
        existing
    }
}

/// Classification of one relation from its evidence and the coverage of its
/// region: supported or modeled evidence makes it present; absence is claimed
/// only with no unresolved evidence and complete coverage.
pub open spec fn presence_spec(evidence: Seq<EvidenceKind>, coverage: Coverage) -> RelationPresence {
    if exists|i: int| 0 <= i < evidence.len() && !(#[trigger] evidence[i] is Unresolved) {
        RelationPresence::Present
    } else if evidence.len() > 0 || coverage != Coverage::Complete {
        RelationPresence::Unknown
    } else {
        RelationPresence::Absent
    }
}

/// Classifies one relation without spreading a partial result to unrelated
/// relations. Positive supported or modeled evidence remains present even if
/// some other continuation is unresolved.
pub fn relation_presence(evidence: &[EvidenceKind], coverage: Coverage) -> (res: RelationPresence)
    ensures
        res == presence_spec(evidence@, coverage),
{
    let mut unresolved = false;
    let mut i: usize = 0;
    while i < evidence.len()
        invariant
            i <= evidence@.len(),
            forall|j: int| 0 <= j < i ==> (#[trigger] evidence@[j]) is Unresolved,
            unresolved == (i > 0),
        decreases evidence.len() - i,
    {
        match &evidence[i] {
            EvidenceKind::Supported | EvidenceKind::Modeled { .. } => {
                return RelationPresence::Present;
            },
            EvidenceKind::Unresolved { .. } => {
                unresolved = true;
            },
        }
        i = i + 1;
    }
    if unresolved || coverage != Coverage::Complete {
        RelationPresence::Unknown
    } else {
        RelationPresence::Absent
    }
}

/// The name of a direction in a diagnostic's affected flows.
pub open spec fn direction_name(direction: Direction) -> Seq<char> {
    match direction {
        Direction::Upstream => "upstream"@,
        Direction::Downstream => "downstream"@,
    }
}

/// A diagnostic and a frontier located at one node, affecting one direction.
pub fn localized_unknown_boundary(
    code: DiagnosticCode,
    message: String,
    node: NodeId,
    span: Option<SourceSpan>,
    direction: Direction,
    next_operation: String,
) -> (res: (Diagnostic, UnknownFrontier))
    ensures
        res.0.code == code,
        res.0.message == message,
        res.0.snapshot == Some(node.snapshot),
        res.0.frontier == Some(node),
        res.0.span == span,
        res.0.affected_flows@.len() == 1,
        res.0.affected_flows@[0]@ == direction_name(direction),
        res.1 == (UnknownFrontier {
            node,
            next_operation,
            diagnostic: code,
            affected_direction: direction,
        }),
{
    let affected = match direction {
        Direction::Upstream => {
            proof {
                reveal_strlit("upstream");
            }
            "upstream"
        },
        Direction::Downstream => {
            proof {
                reveal_strlit("downstream");
            }
            "downstream"
        },
    };
    (
        Diagnostic {
            code,
            message,
            snapshot: Some(node.snapshot.clone()),
            frontier: Some(node.clone()),
            span,
            affected_flows: vec![affected.to_owned()],
        },
        UnknownFrontier { node, next_operation, diagnostic: code, affected_direction: direction },
    )
}

#[derive(Debug, Clone, PartialEq, Eq)]
pub struct BoundedOutput<T> {
    pub items: Vec<T>,
    pub omitted: u64,
    pub limit_reason: Option<LimitReason>,
    /// Whether truncation affects solved graph completeness. Witness-only
    /// display truncation leaves this true.
    pub analysis_complete: bool,
}

/// The result of keeping the first `limit` items.
pub open spec fn bounded_spec<T>(
    items: Seq<T>,
    limit: u64,
    kind: AnalysisLimitKind,
    truncation_is_incomplete: bool,
    out: BoundedOutput<T>,
) -> bool {
    let kept = if items.len() <= limit {
        items.len() as int
    } else {
        limit as int
    };
    let omitted = items.len() - kept;
    &&& out.items@ == items.subrange(0, kept)
    &&& out.omitted == omitted
    &&& out.limit_reason == if omitted > 0 {
        Some(
            LimitReason {
                kind,
                limit,
                observed: if limit + omitted > u64::MAX {
                    u64::MAX
                } else {
                    (limit + omitted) as u64
                },
            },
        )
    } else {
        None
    }
    &&& out.analysis_complete == !(omitted > 0 && truncation_is_incomplete)
}

/// Keeps at most `limit` witnesses; dropping witnesses does not make the
/// analysis incomplete.
pub fn limit_witnesses<T>(items: Vec<T>, limit: u32) -> (res: BoundedOutput<T>)
    requires
        items@.len() <= u64::MAX,
    ensures
        bounded_spec(items@, limit as u64, AnalysisLimitKind::WitnessesPerRelation, false, res),
{
    limit_items(items, limit as u64, AnalysisLimitKind::WitnessesPerRelation, false)
}

/// Keeps at most `limit` graph nodes; dropping nodes makes the analysis
/// incomplete.
pub fn limit_graph_nodes<T>(items: Vec<T>, limit: u64) -> (res: BoundedOutput<T>)
    requires
        items@.len() <= u64::MAX,
    ensures
        bounded_spec(items@, limit, AnalysisLimitKind::OutputNodes, true, res),
{
    limit_items(items, limit, AnalysisLimitKind::OutputNodes, true)
}

fn limit_items<T>(
    items: Vec<T>,
    limit: u64,
    kind: AnalysisLimitKind,
    truncation_is_incomplete: bool,
) -> (res: BoundedOutput<T>)
    requires
        items@.len() <= u64::MAX,
    ensures
        bounded_spec(items@, limit, kind, truncation_is_incomplete, res),
{
    let ghost all = items@;
    let mut retained = items;
    let mut omitted: u64 = 0;
    if retained.len() as u64 > limit {
        let tail = retained.split_off(limit as usize);
        omitted = tail.len() as u64;
    } else {
        proof {
            assert(retained@ =~= all.subrange(0, all.len() as int));
        }
    }
    let was_truncated = omitted > 0;
    BoundedOutput {
        items: retained,
        omitted,
        limit_reason: if was_truncated {
            Some(LimitReason { kind, limit, observed: limit.saturating_add(omitted) })
        } else {
            None
        },
        analysis_complete: !(was_truncated && truncation_is_incomplete),
    }
}

} // verus!
