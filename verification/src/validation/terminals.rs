//! The ends of a history, in terms of its terminals and of the transitions that their bundles are
//! known to have.
use crate::contract::{conceals_iff, AnchoredBundle, History, Transition};
use crate::ids::{BundleId, OpId, SecretSeal};
use crate::validation::model::{bundle_failures, is_end, Ends};
use crate::validation::bundles::{
    bundle_failure_iff, contains_add, flat_map_contains, flat_map_steps,
    inconsistent_bundles_listed,
};
use crate::validation::status::{Failure, Report, Warning};
use vstd::prelude::*;

verus! {

/// A transition that is known of the bundle of a terminal, with the bundle and with the seal of
/// the terminal.
pub type Mention = (Transition, BundleId, SecretSeal);

impl History {
    /// The known transitions of the bundles of the terminals, terminal by terminal.
    pub open spec fn mentions(self) -> Seq<Mention> {
        self.terminals.flat_map(
            |terminal: (BundleId, SecretSeal)|
                if self.bundled.contains_key(terminal.0) {
                    self.bundled[terminal.0].map_values(
                        |transition: Transition| (transition, terminal.0, terminal.1),
                    )
                } else {
                    Seq::<Mention>::empty()
                },
        )
    }
}

/// Whether a transition is mentioned for the first time.
pub open spec fn first_mention(mentions: Seq<Mention>, k: int) -> bool {
    forall|j: int| 0 <= j < k ==> (#[trigger] mentions[j]).0.id != mentions[k].0.id
}

/// Whether none of the assignments of a transition, of whatever type, is to a seal.
pub open spec fn seal_absent(transition: Transition, seal: SecretSeal) -> bool {
    forall|i: int, j: int|
        0 <= i < transition.assignments@.len() && 0 <= j < transition.assignments@[i].seals@.len()
            ==> (#[trigger] transition.assignments@[i].seals@[j]).concealed != seal
}

/// Ends among mentioned transitions: each where it is mentioned first, with the bundle.
spec fn first_mentions(mentions: Seq<Mention>) -> Seq<(Transition, BundleId)> {
    Seq::new(
        mentions.len(),
        |k: int|
            if first_mention(mentions, k) {
                seq![(mentions[k].0, mentions[k].1)]
            } else {
                Seq::<(Transition, BundleId)>::empty()
            },
    ).flatten()
}

/// Warnings of mentioned transitions.
spec fn mention_warnings(mentions: Seq<Mention>) -> Seq<Warning> {
    Seq::new(
        mentions.len(),
        |k: int|
            (if seal_absent(mentions[k].0, mentions[k].2) {
                seq![Warning::TerminalSealAbsent(mentions[k].0.id, mentions[k].2)]
            } else {
                Seq::<Warning>::empty()
            }) + (if first_mention(mentions, k) {
                Seq::<Warning>::empty()
            } else {
                seq![Warning::TerminalDuplication(mentions[k].0.id, mentions[k].2)]
            }),
    ).flatten()
}

proof fn seal_absent_iff(transition: Transition, seal: SecretSeal)
    ensures
        seal_absent(transition, seal) <==> !transition.conceals(seal),
{
    conceals_iff(transition, seal);
    if !seal_absent(transition, seal) {
        let (i, j) = choose|i: int, j: int|
            0 <= i < transition.assignments@.len() && 0 <= j
                < transition.assignments@[i].seals@.len() && (
            #[trigger] transition.assignments@[i].seals@[j]).concealed == seal;
        assert(transition.assignments@[i].seals@[j].concealed == seal);
    }
}

proof fn mentions_grow(mentions: Seq<Mention>, mention: Mention)
    ensures
        ({
            let more = mentions.push(mention);
            let first = first_mention(more, mentions.len() as int);
            &&& first_mentions(more) == if first {
                first_mentions(mentions).push((mention.0, mention.1))
            } else {
                first_mentions(mentions)
            }
            &&& mention_warnings(more) == mention_warnings(mentions) + (if seal_absent(
                mention.0,
                mention.2,
            ) {
                seq![Warning::TerminalSealAbsent(mention.0.id, mention.2)]
            } else {
                Seq::<Warning>::empty()
            }) + (if first {
                Seq::<Warning>::empty()
            } else {
                seq![Warning::TerminalDuplication(mention.0.id, mention.2)]
            })
        }),
{
    let more = mentions.push(mention);
    let n = mentions.len() as int;
    assert forall|k: int| 0 <= k < n implies first_mention(more, k) == first_mention(
        mentions,
        k,
    ) by {
        if first_mention(more, k) {
            assert forall|j: int| 0 <= j < k implies (#[trigger] mentions[j]).0.id
                != mentions[k].0.id by {
                assert(more[j] == mentions[j]);
            }
        }
        if first_mention(mentions, k) {
            assert forall|j: int| 0 <= j < k implies (#[trigger] more[j]).0.id != more[k].0.id by {
                assert(more[j] == mentions[j]);
            }
        }
    }
    let f = |k: int|
        if first_mention(mentions, k) {
            seq![(mentions[k].0, mentions[k].1)]
        } else {
            Seq::<(Transition, BundleId)>::empty()
        };
    let f_more = |k: int|
        if first_mention(more, k) {
            seq![(more[k].0, more[k].1)]
        } else {
            Seq::<(Transition, BundleId)>::empty()
        };
    assert(Seq::new(more.len(), f_more) =~= Seq::new(mentions.len(), f).push(f_more(n)));
    Seq::new(mentions.len(), f).lemma_flatten_push(f_more(n));
    let g = |k: int|
        (if seal_absent(mentions[k].0, mentions[k].2) {
            seq![Warning::TerminalSealAbsent(mentions[k].0.id, mentions[k].2)]
        } else {
            Seq::<Warning>::empty()
        }) + (if first_mention(mentions, k) {
            Seq::<Warning>::empty()
        } else {
            seq![Warning::TerminalDuplication(mentions[k].0.id, mentions[k].2)]
        });
    let g_more = |k: int|
        (if seal_absent(more[k].0, more[k].2) {
            seq![Warning::TerminalSealAbsent(more[k].0.id, more[k].2)]
        } else {
            Seq::<Warning>::empty()
        }) + (if first_mention(more, k) {
            Seq::<Warning>::empty()
        } else {
            seq![Warning::TerminalDuplication(more[k].0.id, more[k].2)]
        });
    assert(Seq::new(more.len(), g_more) =~= Seq::new(mentions.len(), g).push(g_more(n)));
    Seq::new(mentions.len(), g).lemma_flatten_push(g_more(n));
    assert(first_mentions(mentions) == Seq::new(mentions.len(), f).flatten());
    assert(first_mentions(more) == Seq::new(more.len(), f_more).flatten());
    assert(mention_warnings(mentions) == Seq::new(mentions.len(), g).flatten());
    assert(mention_warnings(more) == Seq::new(more.len(), g_more).flatten());
}

/// An operation is among the ends taken in so far just where it was mentioned.
proof fn ends_mentioned(mentions: Seq<Mention>, id: OpId)
    ensures
        is_end(first_mentions(mentions), id) <==> exists|j: int|
            0 <= j < mentions.len() && (#[trigger] mentions[j]).0.id == id,
    decreases mentions.len(),
{
    if mentions.len() == 0 {
        assert(first_mentions(mentions).len() == 0);
    } else {
        let before = mentions.drop_last();
        let mention = mentions.last();
        let n = before.len() as int;
        ends_mentioned(before, id);
        ends_mentioned(before, mention.0.id);
        mentions_grow(before, mention);
        assert(mentions =~= before.push(mention));
        let ends = first_mentions(before);
        if first_mention(mentions, n) {
            let more = ends.push((mention.0, mention.1));
            assert(first_mentions(mentions) == more);
            assert(more[ends.len() as int].0 == mention.0);
            if is_end(ends, id) {
                let i = choose|i: int| 0 <= i < ends.len() && (#[trigger] ends[i]).0.id == id;
                assert(more[i].0.id == id);
            }
            if is_end(more, id) {
                let i = choose|i: int| 0 <= i < more.len() && (#[trigger] more[i]).0.id == id;
                if i < ends.len() {
                    assert(ends[i].0.id == id);
                } else {
                    assert(mentions[n].0.id == id);
                }
            }
        } else {
            let j = choose|j: int| 0 <= j < n && (#[trigger] mentions[j]).0.id == mentions[n].0.id;
            assert(before[j].0.id == mention.0.id);
        }
        if exists|j: int| 0 <= j < mentions.len() && (#[trigger] mentions[j]).0.id == id {
            let j = choose|j: int| 0 <= j < mentions.len() && (#[trigger] mentions[j]).0.id == id;
            if j < n {
                assert(before[j].0.id == id);
            }
        }
        if exists|j: int| 0 <= j < before.len() && (#[trigger] before[j]).0.id == id {
            let j = choose|j: int| 0 <= j < before.len() && (#[trigger] before[j]).0.id == id;
            assert(mentions[j].0.id == id);
        }
    }
}

/// Whether ends are those of mentioned transitions.
spec fn stands_for(ends: Ends, mentions: Seq<Mention>) -> bool {
    &&& ends.transitions == first_mentions(mentions)
    &&& ends.report.warnings == mention_warnings(mentions)
}

proof fn note_stands(ends: Ends, mentions: Seq<Mention>, mention: Mention)
    requires
        stands_for(ends, mentions),
    ensures
        ({
            let next = ends.note(mention.0, mention.1, mention.2);
            &&& stands_for(next, mentions.push(mention))
            &&& next.report == (Report { warnings: next.report.warnings, ..ends.report })
        }),
{
    let more = mentions.push(mention);
    let n = mentions.len() as int;
    mentions_grow(mentions, mention);
    ends_mentioned(mentions, mention.0.id);
    seal_absent_iff(mention.0, mention.2);
    let next = ends.note(mention.0, mention.1, mention.2);
    assert(first_mention(more, n) <==> !is_end(ends.transitions, mention.0.id)) by {
        if is_end(ends.transitions, mention.0.id) {
            let j = choose|j: int|
                0 <= j < mentions.len() && (#[trigger] mentions[j]).0.id == mention.0.id;
            assert(more[j].0.id == more[n].0.id);
        } else {
            assert forall|j: int| 0 <= j < n implies (#[trigger] more[j]).0.id != more[n].0.id by {
                assert(mentions[j].0.id != mention.0.id);
            }
        }
    }
    assert(next.report.warnings =~= mention_warnings(more));
    assert(next.transitions =~= first_mentions(more));
}

proof fn note_all_stands(
    ends: Ends,
    mentions: Seq<Mention>,
    transitions: Seq<Transition>,
    from: int,
    bundle_id: BundleId,
    seal: SecretSeal,
)
    requires
        stands_for(ends, mentions),
        0 <= from <= transitions.len(),
    ensures
        ({
            let next = ends.note_all(transitions, from, bundle_id, seal);
            &&& stands_for(
                next,
                mentions + transitions.skip(from).map_values(
                    |transition: Transition| (transition, bundle_id, seal),
                ),
            )
            &&& next.report == (Report { warnings: next.report.warnings, ..ends.report })
        }),
    decreases transitions.len() - from,
{
    let f = |transition: Transition| (transition, bundle_id, seal);
    let rest = transitions.skip(from).map_values(f);
    if from < transitions.len() {
        let mention = f(transitions[from]);
        note_stands(ends, mentions, mention);
        note_all_stands(
            ends.note(transitions[from], bundle_id, seal),
            mentions.push(mention),
            transitions,
            from + 1,
            bundle_id,
            seal,
        );
        assert(mentions + rest =~= mentions.push(mention) + transitions.skip(from + 1).map_values(
            f,
        ));
    } else {
        assert(mentions + rest =~= mentions);
    }
}

proof fn note_terminals_stands(ends: Ends, mentions: Seq<Mention>, history: History, from: int)
    requires
        stands_for(ends, mentions),
        0 <= from <= history.terminals.len(),
    ensures
        ({
            let next = ends.note_terminals(history, from);
            let rest = history.terminals.skip(from);
            &&& stands_for(
                next,
                mentions + rest.flat_map(
                    |terminal: (BundleId, SecretSeal)|
                        if history.bundled.contains_key(terminal.0) {
                            history.bundled[terminal.0].map_values(
                                |transition: Transition| (transition, terminal.0, terminal.1),
                            )
                        } else {
                            Seq::<Mention>::empty()
                        },
                ),
            )
            &&& next.report.failures == ends.report.failures + rest.flat_map(
                |terminal: (BundleId, SecretSeal)|
                    if history.bundled.contains_key(terminal.0) {
                        Seq::<Failure>::empty()
                    } else {
                        seq![Failure::BundleInvalid(terminal.0)]
                    },
            )
            &&& next.report.unresolved_txids == ends.report.unresolved_txids
            &&& next.report.unmined_terminals == ends.report.unmined_terminals
        }),
    decreases history.terminals.len() - from,
{
    let f = |terminal: (BundleId, SecretSeal)|
        if history.bundled.contains_key(terminal.0) {
            history.bundled[terminal.0].map_values(
                |transition: Transition| (transition, terminal.0, terminal.1),
            )
        } else {
            Seq::<Mention>::empty()
        };
    let g = |terminal: (BundleId, SecretSeal)|
        if history.bundled.contains_key(terminal.0) {
            Seq::<Failure>::empty()
        } else {
            seq![Failure::BundleInvalid(terminal.0)]
        };
    let terminals = history.terminals;
    flat_map_steps(terminals, f, from);
    flat_map_steps(terminals, g, from);
    if from < terminals.len() {
        let (bundle_id, seal) = terminals[from];
        let next = if history.bundled.contains_key(bundle_id) {
            ends.note_all(history.bundled[bundle_id], 0, bundle_id, seal)
        } else {
            Ends { report: ends.report.fail(Failure::BundleInvalid(bundle_id)), ..ends }
        };
        let more = mentions + f(terminals[from]);
        if history.bundled.contains_key(bundle_id) {
            let transitions = history.bundled[bundle_id];
            note_all_stands(ends, mentions, transitions, 0, bundle_id, seal);
            assert(transitions.skip(0) =~= transitions);
            assert(f(terminals[from]) =~= transitions.map_values(
                |transition: Transition| (transition, bundle_id, seal),
            ));
        } else {
            assert(more =~= mentions);
        }
        assert(stands_for(next, more));
        note_terminals_stands(next, more, history, from + 1);
        let rest = terminals.skip(from + 1);
        assert(mentions + (f(terminals[from]) + rest.flat_map(f)) =~= more + rest.flat_map(f));
        assert(next.report.failures =~= ends.report.failures + g(terminals[from]));
        assert(ends.report.failures + (g(terminals[from]) + rest.flat_map(g))
            =~= next.report.failures + rest.flat_map(g));
    } else {
        assert(mentions + terminals.skip(from).flat_map(f) =~= mentions);
        assert(ends.report.failures + terminals.skip(from).flat_map(g) =~= ends.report.failures);
    }
}

/// The ends of a history are the known transitions of the bundles of its terminals, each where it
/// is mentioned first and with the bundle it is mentioned with. A mention is warned of where none
/// of the assignments of the transition is to the seal of the terminal, and where the transition
/// was mentioned before. Inconsistent bundles are failures, and so are terminals with unknown
/// bundles behind them, and there are no others.
pub proof fn ends_listed(history: History)
    ensures
        ({
            let mentions = history.mentions();
            &&& history.ends().transitions == Seq::new(
                mentions.len(),
                |k: int|
                    if first_mention(mentions, k) {
                        seq![(mentions[k].0, mentions[k].1)]
                    } else {
                        Seq::<(Transition, BundleId)>::empty()
                    },
            ).flatten()
            &&& history.ends().report.warnings == Seq::new(
                mentions.len(),
                |k: int|
                    (if seal_absent(mentions[k].0, mentions[k].2) {
                        seq![Warning::TerminalSealAbsent(mentions[k].0.id, mentions[k].2)]
                    } else {
                        Seq::<Warning>::empty()
                    }) + (if first_mention(mentions, k) {
                        Seq::<Warning>::empty()
                    } else {
                        seq![Warning::TerminalDuplication(mentions[k].0.id, mentions[k].2)]
                    }),
            ).flatten()
            &&& history.ends().report.failures == history.bundles.flat_map(
                |anchored: AnchoredBundle|
                    if anchored.bundle.consistent {
                        Seq::<Failure>::empty()
                    } else {
                        seq![Failure::BundleInvalid(anchored.bundle.bundle_id)]
                    },
            ) + history.terminals.flat_map(
                |terminal: (BundleId, SecretSeal)|
                    if history.bundled.contains_key(terminal.0) {
                        Seq::<Failure>::empty()
                    } else {
                        seq![Failure::BundleInvalid(terminal.0)]
                    },
            )
            &&& history.ends().report.unresolved_txids.len() == 0
            &&& history.ends().report.unmined_terminals.len() == 0
        }),
{
    let none = Seq::<Mention>::empty();
    let start = Ends {
        report: Report::empty().fail_all(bundle_failures(history.bundles, 0)),
        transitions: Seq::empty(),
    };
    assert(stands_for(start, none));
    inconsistent_bundles_listed(history.bundles);
    note_terminals_stands(start, none, history, 0);
    assert(history.terminals.skip(0) =~= history.terminals);
    assert(none + history.mentions() =~= history.mentions());
    assert(start.report.failures =~= bundle_failures(history.bundles, 0));
    assert(stands_for(history.ends(), history.mentions()));
}

proof fn flatten_contains<A>(parts: Seq<Seq<A>>, item: A)
    ensures
        parts.flatten().contains(item) <==> exists|k: int|
            0 <= k < parts.len() && (#[trigger] parts[k]).contains(item),
{
    let same = |part: Seq<A>| part;
    flat_map_contains(parts, same, item);
    assert(parts.map_values(same) =~= parts);
    if exists|k: int| 0 <= k < parts.len() && (#[trigger] parts[k]).contains(item) {
        let k = choose|k: int| 0 <= k < parts.len() && (#[trigger] parts[k]).contains(item);
        assert(same(parts[k]).contains(item));
    }
    if exists|k: int| 0 <= k < parts.len() && same(#[trigger] parts[k]).contains(item) {
        let k = choose|k: int| 0 <= k < parts.len() && same(#[trigger] parts[k]).contains(item);
        assert(parts[k].contains(item));
    }
}

/// A transition is mentioned with a bundle and a seal just where some terminal, whichever, has the
/// two, and the transition is among those that the bundle is known to have.
pub proof fn mention_iff(history: History, mention: Mention)
    ensures
        history.mentions().contains(mention) <==> {
            &&& history.terminals.contains((mention.1, mention.2))
            &&& history.bundled.contains_key(mention.1)
            &&& history.bundled[mention.1].contains(mention.0)
        },
{
    let f = |terminal: (BundleId, SecretSeal)|
        if history.bundled.contains_key(terminal.0) {
            history.bundled[terminal.0].map_values(
                |transition: Transition| (transition, terminal.0, terminal.1),
            )
        } else {
            Seq::<Mention>::empty()
        };
    let terminals = history.terminals;
    flat_map_contains(terminals, f, mention);
    if history.mentions().contains(mention) {
        let t = choose|t: int|
            0 <= t < terminals.len() && f(#[trigger] terminals[t]).contains(mention);
        let transitions = history.bundled[terminals[t].0];
        let i = f(terminals[t]).index_of(mention);
        assert(mention == (transitions[i], terminals[t].0, terminals[t].1));
        assert(terminals[t] == (mention.1, mention.2));
    }
    if terminals.contains((mention.1, mention.2)) && history.bundled.contains_key(mention.1)
        && history.bundled[mention.1].contains(mention.0) {
        let t = terminals.index_of((mention.1, mention.2));
        let i = history.bundled[mention.1].index_of(mention.0);
        assert(f(terminals[t])[i] == mention);
    }
}

/// A transition is warned of for the lack of a seal just where it is among those that the bundle
/// of some terminal is known to have, and none of its assignments, of whatever type and number, is
/// to the seal of that terminal.
pub proof fn seal_absent_warned_iff(history: History, id: OpId, seal: SecretSeal)
    ensures
        history.ends().report.warnings.contains(Warning::TerminalSealAbsent(id, seal)) <==> exists|
            transition: Transition,
            bundle_id: BundleId,
        |
            {
                &&& transition.id == id
                &&& history.terminals.contains((bundle_id, seal))
                &&& history.bundled.contains_key(bundle_id)
                &&& #[trigger] history.bundled[bundle_id].contains(transition)
                &&& forall|i: int, j: int|
                    0 <= i < transition.assignments@.len() && 0 <= j
                        < transition.assignments@[i].seals@.len() ==> (
                    #[trigger] transition.assignments@[i].seals@[j]).concealed != seal
            },
{
    let warning = Warning::TerminalSealAbsent(id, seal);
    let mentions = history.mentions();
    let f = |k: int|
        (if seal_absent(mentions[k].0, mentions[k].2) {
            seq![Warning::TerminalSealAbsent(mentions[k].0.id, mentions[k].2)]
        } else {
            Seq::<Warning>::empty()
        }) + (if first_mention(mentions, k) {
            Seq::<Warning>::empty()
        } else {
            seq![Warning::TerminalDuplication(mentions[k].0.id, mentions[k].2)]
        });
    let parts = Seq::new(mentions.len(), f);
    ends_listed(history);
    flatten_contains(parts, warning);
    if history.ends().report.warnings.contains(warning) {
        let k = choose|k: int| 0 <= k < parts.len() && (#[trigger] parts[k]).contains(warning);
        let at = parts[k].index_of(warning);
        assert(seal_absent(mentions[k].0, mentions[k].2) && at == 0);
        assert(mentions.contains(mentions[k]));
        mention_iff(history, mentions[k]);
        assert(history.bundled[mentions[k].1].contains(mentions[k].0));
    }
    if exists|transition: Transition, bundle_id: BundleId|
        {
            &&& transition.id == id
            &&& history.terminals.contains((bundle_id, seal))
            &&& history.bundled.contains_key(bundle_id)
            &&& #[trigger] history.bundled[bundle_id].contains(transition)
            &&& seal_absent(transition, seal)
        } {
        let (transition, bundle_id) = choose|transition: Transition, bundle_id: BundleId|
            {
                &&& transition.id == id
                &&& history.terminals.contains((bundle_id, seal))
                &&& history.bundled.contains_key(bundle_id)
                &&& #[trigger] history.bundled[bundle_id].contains(transition)
                &&& seal_absent(transition, seal)
            };
        mention_iff(history, (transition, bundle_id, seal));
        let k = mentions.index_of((transition, bundle_id, seal));
        assert(parts[k][0] == warning);
        assert(parts[k].contains(warning));
    }
}

/// A transition is warned of for a repetition just where it is mentioned with the seal and was
/// mentioned before.
pub proof fn duplication_warned_iff(history: History, id: OpId, seal: SecretSeal)
    ensures
        history.ends().report.warnings.contains(Warning::TerminalDuplication(id, seal))
            <==> exists|j: int, k: int|
            {
                &&& 0 <= j < k < history.mentions().len()
                &&& (#[trigger] history.mentions()[j]).0.id == id
                &&& (#[trigger] history.mentions()[k]).0.id == id
                &&& history.mentions()[k].2 == seal
            },
{
    let warning = Warning::TerminalDuplication(id, seal);
    let mentions = history.mentions();
    let f = |k: int|
        (if seal_absent(mentions[k].0, mentions[k].2) {
            seq![Warning::TerminalSealAbsent(mentions[k].0.id, mentions[k].2)]
        } else {
            Seq::<Warning>::empty()
        }) + (if first_mention(mentions, k) {
            Seq::<Warning>::empty()
        } else {
            seq![Warning::TerminalDuplication(mentions[k].0.id, mentions[k].2)]
        });
    let parts = Seq::new(mentions.len(), f);
    ends_listed(history);
    flatten_contains(parts, warning);
    if history.ends().report.warnings.contains(warning) {
        let k = choose|k: int| 0 <= k < parts.len() && (#[trigger] parts[k]).contains(warning);
        let at = parts[k].index_of(warning);
        assert(!first_mention(mentions, k));
        let j = choose|j: int| 0 <= j < k && (#[trigger] mentions[j]).0.id == mentions[k].0.id;
        assert(mentions[j].0.id == id && mentions[k].0.id == id);
    }
    if exists|j: int, k: int|
        {
            &&& 0 <= j < k < mentions.len()
            &&& (#[trigger] mentions[j]).0.id == id
            &&& (#[trigger] mentions[k]).0.id == id
            &&& mentions[k].2 == seal
        } {
        let (j, k) = choose|j: int, k: int|
            {
                &&& 0 <= j < k < mentions.len()
                &&& (#[trigger] mentions[j]).0.id == id
                &&& (#[trigger] mentions[k]).0.id == id
                &&& mentions[k].2 == seal
            };
        assert(!first_mention(mentions, k));
        assert(parts[k].last() == warning);
        assert(parts[k].contains(warning));
    }
}

/// Of the ends nothing is warned of but the lack of a seal and repetitions, and nothing fails but
/// an inconsistent bundle and a terminal with an unknown bundle.
pub proof fn end_report_iff(history: History, failure: Failure, warning: Warning)
    ensures
        history.ends().report.warnings.contains(warning) ==> warning is TerminalSealAbsent
            || warning is TerminalDuplication,
        history.ends().report.failures.contains(failure) <==> {
            ||| exists|i: int|
                {
                    &&& 0 <= i < history.bundles.len()
                    &&& !(#[trigger] history.bundles[i]).bundle.consistent
                    &&& failure == Failure::BundleInvalid(history.bundles[i].bundle.bundle_id)
                }
            ||| exists|t: int|
                {
                    &&& 0 <= t < history.terminals.len()
                    &&& !history.bundled.contains_key((#[trigger] history.terminals[t]).0)
                    &&& failure == Failure::BundleInvalid(history.terminals[t].0)
                }
        },
{
    let mentions = history.mentions();
    let f = |k: int|
        (if seal_absent(mentions[k].0, mentions[k].2) {
            seq![Warning::TerminalSealAbsent(mentions[k].0.id, mentions[k].2)]
        } else {
            Seq::<Warning>::empty()
        }) + (if first_mention(mentions, k) {
            Seq::<Warning>::empty()
        } else {
            seq![Warning::TerminalDuplication(mentions[k].0.id, mentions[k].2)]
        });
    let g = |terminal: (BundleId, SecretSeal)|
        if history.bundled.contains_key(terminal.0) {
            Seq::<Failure>::empty()
        } else {
            seq![Failure::BundleInvalid(terminal.0)]
        };
    let parts = Seq::new(mentions.len(), f);
    let terminals = history.terminals;
    ends_listed(history);
    flatten_contains(parts, warning);
    if history.ends().report.warnings.contains(warning) {
        let k = choose|k: int| 0 <= k < parts.len() && (#[trigger] parts[k]).contains(warning);
        let at = parts[k].index_of(warning);
        assert(parts[k][at] == warning);
    }
    inconsistent_bundles_listed(history.bundles);
    bundle_failure_iff(history.bundles, failure);
    contains_add(bundle_failures(history.bundles, 0), terminals.flat_map(g), failure);
    flat_map_contains(terminals, g, failure);
    assert forall|t: int| 0 <= t < terminals.len() implies (g(#[trigger] terminals[t]).contains(
        failure,
    ) <==> !history.bundled.contains_key(terminals[t].0) && failure == Failure::BundleInvalid(
        terminals[t].0,
    )) by {
        if !history.bundled.contains_key(terminals[t].0) {
            assert(g(terminals[t])[0] == Failure::BundleInvalid(terminals[t].0));
        }
    }
}

/// A transition is an end, with a bundle, just where it is mentioned with the bundle and was not
/// mentioned before.
pub proof fn end_iff(history: History, end: (Transition, BundleId))
    ensures
        history.ends().transitions.contains(end) <==> exists|k: int|
            {
                &&& 0 <= k < history.mentions().len()
                &&& first_mention(history.mentions(), k)
                &&& end == ((#[trigger] history.mentions()[k]).0, history.mentions()[k].1)
            },
{
    let mentions = history.mentions();
    let f = |k: int|
        if first_mention(mentions, k) {
            seq![(mentions[k].0, mentions[k].1)]
        } else {
            Seq::<(Transition, BundleId)>::empty()
        };
    let parts = Seq::new(mentions.len(), f);
    ends_listed(history);
    flatten_contains(parts, end);
    if history.ends().transitions.contains(end) {
        let k = choose|k: int| 0 <= k < parts.len() && (#[trigger] parts[k]).contains(end);
        let at = parts[k].index_of(end);
        assert(parts[k][at] == end);
        assert(end == (mentions[k].0, mentions[k].1));
    }
    if exists|k: int|
        {
            &&& 0 <= k < mentions.len()
            &&& first_mention(mentions, k)
            &&& end == ((#[trigger] mentions[k]).0, mentions[k].1)
        } {
        let k = choose|k: int|
            {
                &&& 0 <= k < mentions.len()
                &&& first_mention(mentions, k)
                &&& end == ((#[trigger] mentions[k]).0, mentions[k].1)
            };
        assert(parts[k][0] == end);
        assert(parts[k].contains(end));
    }
}

} // verus!
