//! Philips Hue integration: configuration, the resource data read from the
//! bridge, its request URLs, bridge discovery decisions, and the alert state
//! of the lights (what was saved before an alert, whether a pending reset was
//! overtaken by a new alert, and how the lights are put back).
use vstd::prelude::*;
use crate::forward::texts;
use crate::hue::config::HueConfig;
use crate::text::same_text;

pub mod client;
pub mod config;
pub mod discovery;

verus! {

/// A light as read from the bridge before an alert: its id, whether it was
/// on, and the rest of its look (colour, brightness), which the library only
/// keeps and hands back.
pub struct SavedLight<T> {
    pub id: String,
    pub on: bool,
    pub look: T,
}

/// What to do with a light when an alert is over.
pub enum RestoreStep<T> {
    /// It was on: switch it on with its saved look.
    Restore(T),
    /// It was off: switch it off.
    TurnOff,
}

/// One light to put back after an alert.
pub struct RestoreOrder<T> {
    pub id: String,
    pub step: RestoreStep<T>,
}

/// What is remembered of light `id`: its most recent entry in `saved`.
pub open spec fn recall<T>(saved: Seq<SavedLight<T>>, id: Seq<char>) -> Option<(bool, T)>
    decreases saved.len(),
{
    if saved.len() == 0 {
        None
    } else if saved.last().id@ == id {
        Some((saved.last().on, saved.last().look))
    } else {
        recall(saved.drop_last(), id)
    }
}

/// `saved` after remembering, in their order, the lights of `lights` whose id
/// is one of `targets`.
pub open spec fn remembered<T>(
    saved: Seq<SavedLight<T>>,
    lights: Seq<SavedLight<T>>,
    targets: Seq<Seq<char>>,
) -> Seq<SavedLight<T>>
    decreases lights.len(),
{
    if lights.len() == 0 {
        saved
    } else {
        let before = remembered(saved, lights.drop_last(), targets);
        if targets.contains(lights.last().id@) {
            before.push(lights.last())
        } else {
            before
        }
    }
}

/// The step for a light with the saved state `state`.
pub open spec fn restore_step<T>(state: (bool, T)) -> RestoreStep<T> {
    if state.0 {
        RestoreStep::Restore(state.1)
    } else {
        RestoreStep::TurnOff
    }
}

/// The lights to put back, in the order of `targets`, each with its step;
/// a target with nothing remembered is left out.
pub open spec fn restore_plan<T>(targets: Seq<Seq<char>>, saved: Seq<SavedLight<T>>) -> Seq<
    (Seq<char>, RestoreStep<T>),
>
    decreases targets.len(),
{
    if targets.len() == 0 {
        seq![]
    } else {
        let before = restore_plan(targets.drop_last(), saved);
        match recall(saved, targets.last()) {
            Some(state) => before.push((targets.last(), restore_step(state))),
            None => before,
        }
    }
}

/// Restore orders as (id, step) pairs.
pub open spec fn order_views<T>(v: Seq<RestoreOrder<T>>) -> Seq<(Seq<char>, RestoreStep<T>)> {
    v.map_values(|o: RestoreOrder<T>| (o.id@, o.step))
}

/// Remembering lights leaves what is known of a light unchanged unless it is
/// a target read among `lights`, in which case its last reading is known.
pub proof fn lemma_recall_remembered<T>(
    saved: Seq<SavedLight<T>>,
    lights: Seq<SavedLight<T>>,
    targets: Seq<Seq<char>>,
    id: Seq<char>,
)
    ensures
        recall(remembered(saved, lights, targets), id) == if targets.contains(id) && recall(
            lights,
            id,
        ) is Some {
            recall(lights, id)
        } else {
            recall(saved, id)
        },
    decreases lights.len(),
{
    if lights.len() > 0 {
        lemma_recall_remembered(saved, lights.drop_last(), targets, id);
        let before = remembered(saved, lights.drop_last(), targets);
        if targets.contains(lights.last().id@) {
            assert(before.push(lights.last()).drop_last() =~= before);
        }
    }
}

/// The alert state of the Hue lights: the settings, a token that each new
/// alert moves on (so that a reset still waiting sees it was overtaken), and
/// what was saved of the target lights before the current alert.
pub struct HueIntegration<T> {
    config: HueConfig,
    reset_token: u64,
    saved: Vec<SavedLight<T>>,
}

impl<T> HueIntegration<T> {
    /// The settings.
    pub closed spec fn settings(&self) -> HueConfig {
        self.config
    }

    /// The current token.
    pub closed spec fn token(&self) -> u64 {
        self.reset_token
    }

    /// What was saved of the lights, oldest first.
    pub closed spec fn memory(&self) -> Seq<SavedLight<T>> {
        self.saved@
    }
}

/// Whether `id` is one of `targets`.
fn is_target(targets: &Vec<String>, id: &str) -> (r: bool)
    ensures
        r == texts(targets@).contains(id@),
{
    let mut i: usize = 0;
    while i < targets.len()
        invariant
            i <= targets@.len(),
            forall|k: int| 0 <= k < i ==> targets@[k]@ != id@,
        decreases targets@.len() - i,
    {
        if same_text(targets[i].as_str(), id) {
            assert(texts(targets@)[i as int] == id@);
            return true;
        }
        i = i + 1;
    }
    proof {
        if texts(targets@).contains(id@) {
            let k = choose|k: int| 0 <= k < texts(targets@).len() && texts(targets@)[k] == id@;
            assert(targets@[k]@ == id@);
        }
    }
    false
}

/// What is remembered of light `id` in `saved`.
fn lookup_saved<T: Copy>(saved: &Vec<SavedLight<T>>, id: &str) -> (r: Option<(bool, T)>)
    ensures
        r == recall(saved@, id@),
{
    let mut i: usize = saved.len();
    assert(saved@.take(i as int) =~= saved@);
    while i > 0
        invariant
            i <= saved@.len(),
            recall(saved@, id@) == recall(saved@.take(i as int), id@),
        decreases i,
    {
        assert(saved@.take(i as int).drop_last() =~= saved@.take(i - 1));
        if same_text(saved[i - 1].id.as_str(), id) {
            return Some((saved[i - 1].on, saved[i - 1].look));
        }
        i = i - 1;
    }
    None
}

impl<T: Copy> HueIntegration<T> {
    /// A disabled-or-enabled integration as `config` says, with no alert seen.
    pub fn new(config: HueConfig) -> (r: Self)
        ensures
            r.settings() == config,
            r.token() == 0,
            r.memory().len() == 0,
    {
        HueIntegration { config, reset_token: 0, saved: Vec::new() }
    }

    /// The settings.
    pub fn config(&self) -> (r: &HueConfig)
        ensures
            *r == self.settings(),
    {
        &self.config
    }

    /// The current token.
    pub fn current_token(&self) -> (r: u64)
        ensures
            r == self.token(),
    {
        self.reset_token
    }

    /// Whether the search for the bridge is to be started: only when enabled.
    pub fn start(&self) -> (r: bool)
        ensures
            r == self.settings().enabled,
    {
        self.config.enabled
    }

    /// An alert begins. When disabled nothing changes and the result is
    /// `None`. Otherwise the token moves on, so that a reset still waiting is
    /// overtaken, and the result says whether the lights are to be read now:
    /// only when nothing is saved from an alert not yet put back.
    pub fn trigger_alert(&mut self) -> (r: Option<bool>)
        requires
            old(self).token() < u64::MAX,
        ensures
            final(self).settings() == old(self).settings(),
            final(self).memory() == old(self).memory(),
            !old(self).settings().enabled ==> r is None && final(self).token() == old(self).token(),
            old(self).settings().enabled ==> r == Some(old(self).memory().len() == 0)
                && final(self).token() == old(self).token() + 1,
    {
        if !self.config.enabled {
            return None;
        }
        self.reset_token = self.reset_token + 1;
        Some(self.saved.len() == 0)
    }

    /// Remember the lights read from the bridge that are alert targets, a
    /// later reading of a light taking the place of an earlier one.
    pub fn remember_lights(&mut self, lights: Vec<SavedLight<T>>)
        ensures
            final(self).settings() == old(self).settings(),
            final(self).token() == old(self).token(),
            final(self).memory() == remembered(
                old(self).memory(),
                lights@,
                texts(old(self).settings().target_ids@),
            ),
    {
        let ghost start = self.saved@;
        let ghost targets = texts(self.config.target_ids@);
        let mut i: usize = 0;
        while i < lights.len()
            invariant
                i <= lights@.len(),
                self.config == old(self).config,
                self.reset_token == old(self).reset_token,
                targets == texts(self.config.target_ids@),
                self.saved@ == remembered(start, lights@.take(i as int), targets),
            decreases lights@.len() - i,
        {
            assert(lights@.take(i + 1).drop_last() =~= lights@.take(i as int));
            if is_target(&self.config.target_ids, lights[i].id.as_str()) {
                let light = SavedLight { id: lights[i].id.clone(), on: lights[i].on, look: lights[i].look };
                self.saved.push(light);
            }
            i = i + 1;
        }
        assert(lights@.take(i as int) =~= lights@);
    }

    /// An alert is over. When disabled the result is `None`; otherwise the
    /// token to check while waiting before the lights are put back.
    pub fn reset_alert(&self) -> (r: Option<u64>)
        ensures
            r == if self.settings().enabled {
                Some(self.token())
            } else {
                None
            },
    {
        if self.config.enabled {
            Some(self.reset_token)
        } else {
            None
        }
    }

    /// Whether no alert began since `reset_alert` gave `token`.
    pub fn is_current(&self, token: u64) -> (r: bool)
        ensures
            r == (token == self.token()),
    {
        token == self.reset_token
    }

    /// Put the lights back: for each target light with a saved state, in the
    /// order of the targets, switch it on with its saved look or switch it
    /// off; afterwards nothing is saved.
    pub fn restore_lights(&mut self) -> (r: Vec<RestoreOrder<T>>)
        ensures
            final(self).settings() == old(self).settings(),
            final(self).token() == old(self).token(),
            final(self).memory().len() == 0,
            order_views(r@) == restore_plan(
                texts(old(self).settings().target_ids@),
                old(self).memory(),
            ),
    {
        let ghost targets = texts(self.config.target_ids@);
        let mut r: Vec<RestoreOrder<T>> = Vec::new();
        let mut i: usize = 0;
        while i < self.config.target_ids.len()
            invariant
                i <= self.config.target_ids@.len(),
                self.config == old(self).config,
                self.reset_token == old(self).reset_token,
                self.saved@ == old(self).saved@,
                targets == texts(self.config.target_ids@),
                order_views(r@) == restore_plan(targets.take(i as int), self.saved@),
            decreases self.config.target_ids@.len() - i,
        {
            assert(targets.take(i + 1).drop_last() =~= targets.take(i as int));
            let id = self.config.target_ids[i].clone();
            match lookup_saved(&self.saved, id.as_str()) {
                Some((on, look)) => {
                    let step = if on {
                        RestoreStep::Restore(look)
                    } else {
                        RestoreStep::TurnOff
                    };
                    let ghost before = r@;
                    r.push(RestoreOrder { id, step });
                    assert(order_views(r@) =~= order_views(before).push(
                        (targets[i as int], step),
                    ));
                },
                None => {},
            }
            i = i + 1;
        }
        assert(targets.take(i as int) =~= targets);
        self.saved = Vec::new();
        r
    }
}

} // verus!
