//! Bidding agents: the controller settings of each process and the tuning phase
//! that new processes go through.
use vstd::prelude::*;

use crate::class::{CLASS_BATCH, CLASS_DAEMON, CLASS_INTERACTIVE, CLASS_UNKNOWN};

verus! {

/// Latency samples that a tuning phase takes before it settles.
pub const ESC_SAMPLES_NEEDED: usize = 100;

/// Settings of a bidding controller. Gains and the multiplier are in thousandths.
#[derive(Clone, Copy, Debug, PartialEq, Eq, Structural)]
pub struct Profile {
    /// Latency that the controller aims at.
    pub target_latency_ns: u64,
    /// Proportional gain.
    pub kp_milli: u32,
    /// Integral gain.
    pub ki_milli: u32,
    /// Derivative gain.
    pub kd_milli: u32,
    /// Share of the balance that is bid when latency is on target.
    pub multiplier_milli: u32,
}

/// How the next bid of an agent is to be made.
#[derive(Clone, Copy, Debug, PartialEq, Eq, Structural)]
pub enum BidPhase {
    /// The multiplier is perturbed, and the latency is added to the samples.
    Explore,
    /// The last sample is added, the multiplier is set from all samples, and the
    /// bid is made by the controller.
    Settle,
    /// The bid is made by the controller.
    Steady,
}

/// The bidding agent of one process.
#[derive(Clone, Copy, Debug, PartialEq, Eq, Structural)]
pub struct BiddingAgent {
    /// Controller settings.
    pub profile: Profile,
    /// Samples taken so far by a tuning phase that has not settled.
    pub tuning: Option<usize>,
}

/// The controller settings of `class`.
pub open spec fn class_profile(class: u8) -> Profile {
    if class == CLASS_INTERACTIVE {
        Profile {
            target_latency_ns: 1_000_000,
            kp_milli: 500,
            ki_milli: 10,
            kd_milli: 100,
            multiplier_milli: 200,
        }
    } else if class == CLASS_BATCH {
        Profile {
            target_latency_ns: 50_000_000,
            kp_milli: 100,
            ki_milli: 1,
            kd_milli: 50,
            multiplier_milli: 50,
        }
    } else {
        Profile {
            target_latency_ns: 5_000_000,
            kp_milli: 300,
            ki_milli: 5,
            kd_milli: 80,
            multiplier_milli: 100,
        }
    }
}

/// Whether processes of `class` go through a tuning phase.
pub open spec fn class_tunes(class: u8) -> bool {
    class == CLASS_UNKNOWN || class == CLASS_DAEMON
}

impl BiddingAgent {
    /// The agent of a new process of `class`.
    pub open spec fn fresh(class: u8) -> BiddingAgent {
        BiddingAgent {
            profile: class_profile(class),
            tuning: if class_tunes(class) {
                Some(0)
            } else {
                None
            },
        }
    }

    /// Samples are counted below the number that settles a tuning phase.
    pub open spec fn wf(self) -> bool {
        self.tuning matches Some(samples) ==> samples < ESC_SAMPLES_NEEDED
    }

    /// How the next bid is to be made.
    pub open spec fn phase(self) -> BidPhase {
        match self.tuning {
            Some(samples) => if samples + 1 >= ESC_SAMPLES_NEEDED {
                BidPhase::Settle
            } else {
                BidPhase::Explore
            },
            None => BidPhase::Steady,
        }
    }

    /// This agent after its next bid.
    pub open spec fn stepped(self) -> BiddingAgent {
        BiddingAgent {
            profile: self.profile,
            tuning: match self.tuning {
                Some(samples) => if samples + 1 >= ESC_SAMPLES_NEEDED {
                    None
                } else {
                    Some((samples + 1) as usize)
                },
                None => None,
            },
        }
    }

    /// This agent after `n` more bids.
    pub open spec fn after_bids(self, n: nat) -> BiddingAgent
        decreases n,
    {
        if n == 0 {
            self
        } else {
            self.after_bids((n - 1) as nat).stepped()
        }
    }

    /// The agent of a new process of `class`.
    pub fn new_for_class(class: u8) -> (agent: BiddingAgent)
        ensures
            agent == BiddingAgent::fresh(class),
            agent.wf(),
    {
        let profile = if class == CLASS_INTERACTIVE {
            Profile {
                target_latency_ns: 1_000_000,
                kp_milli: 500,
                ki_milli: 10,
                kd_milli: 100,
                multiplier_milli: 200,
            }
        } else if class == CLASS_BATCH {
            Profile {
                target_latency_ns: 50_000_000,
                kp_milli: 100,
                ki_milli: 1,
                kd_milli: 50,
                multiplier_milli: 50,
            }
        } else {
            Profile {
                target_latency_ns: 5_000_000,
                kp_milli: 300,
                ki_milli: 5,
                kd_milli: 80,
                multiplier_milli: 100,
            }
        };
        let tuning: Option<usize> = if class == CLASS_UNKNOWN || class == CLASS_DAEMON {
            Some(0)
        } else {
            None
        };
        BiddingAgent { profile, tuning }
    }

    /// Takes the step of one bid, and says how the bid is to be made.
    pub fn step(&mut self) -> (phase: BidPhase)
        requires
            old(self).wf(),
        ensures
            phase == old(self).phase(),
            *final(self) == old(self).stepped(),
            final(self).wf(),
    {
        match self.tuning {
            Some(samples) => {
                if samples + 1 >= ESC_SAMPLES_NEEDED {
                    self.tuning = None;
                    BidPhase::Settle
                } else {
                    self.tuning = Some(samples + 1);
                    BidPhase::Explore
                }
            },
            None => BidPhase::Steady,
        }
    }

    /// Whether the bid multiplier is settled.
    pub fn is_tuned(&self) -> (tuned: bool)
        ensures
            tuned == (self.tuning is None),
    {
        match self.tuning {
            Some(_) => false,
            None => true,
        }
    }
}

/// An agent that has settled never tunes again.
pub proof fn law_settled_for_good(agent: BiddingAgent, n: nat)
    requires
        agent.tuning is None,
    ensures
        agent.after_bids(n) == agent,
        agent.after_bids(n).phase() == BidPhase::Steady,
    decreases n,
{
    if n > 0 {
        law_settled_for_good(agent, (n - 1) as nat);
    }
}

/// A new agent of a class that tunes explores for all bids but the last of the
/// tuning phase, settles on the last one, and is steady from then on. Agents of
/// other classes are steady from the start.
pub proof fn law_tuning_runs_once(class: u8, n: nat)
    ensures
        !class_tunes(class) ==> BiddingAgent::fresh(class).after_bids(n).phase()
            == BidPhase::Steady,
        class_tunes(class) && n + 1 < ESC_SAMPLES_NEEDED ==> BiddingAgent::fresh(class).after_bids(
            n,
        ).phase() == BidPhase::Explore,
        class_tunes(class) && n + 1 == ESC_SAMPLES_NEEDED ==> BiddingAgent::fresh(class).after_bids(
            n,
        ).phase() == BidPhase::Settle,
        class_tunes(class) && n >= ESC_SAMPLES_NEEDED ==> BiddingAgent::fresh(class).after_bids(
            n,
        ).phase() == BidPhase::Steady,
{
    lemma_samples_taken(class, n);
}

/// How many samples a new agent has taken after `n` bids.
proof fn lemma_samples_taken(class: u8, n: nat)
    ensures
        BiddingAgent::fresh(class).after_bids(n).tuning == if class_tunes(class) && n
            < ESC_SAMPLES_NEEDED {
            Some(n as usize)
        } else {
            None
        },
    decreases n,
{
    if n > 0 {
        lemma_samples_taken(class, (n - 1) as nat);
    }
}

/// The settings of a new agent. Interactive processes aim at one millisecond of latency,
/// batch processes at fifty, all others at five; gains and the share of the balance that
/// is bid are given in thousandths.
pub proof fn law_settings_by_class(class: u8)
    ensures
        ({
            let p = BiddingAgent::fresh(class).profile;
            &&& class == 0 ==> p.target_latency_ns == 1_000_000 && p.kp_milli == 500 && p.ki_milli
                == 10 && p.kd_milli == 100 && p.multiplier_milli == 200
            &&& class == 1 ==> p.target_latency_ns == 50_000_000 && p.kp_milli == 100 && p.ki_milli
                == 1 && p.kd_milli == 50 && p.multiplier_milli == 50
            &&& class >= 2 ==> p.target_latency_ns == 5_000_000 && p.kp_milli == 300 && p.ki_milli
                == 5 && p.kd_milli == 80 && p.multiplier_milli == 100
        }),
{
}

/// Daemons and unknown processes, and no others, explore for 99 bids, settle on the
/// hundredth and are steady from then on. No bid changes the settings.
pub proof fn law_tuning_takes_a_hundred_bids(class: u8, n: nat)
    ensures
        ({
            let agent = BiddingAgent::fresh(class).after_bids(n);
            let tunes = class == 2 || class == 4;
            &&& agent.phase() == BidPhase::Explore <==> tunes && n < 99
            &&& agent.phase() == BidPhase::Settle <==> tunes && n == 99
            &&& agent.phase() == BidPhase::Steady <==> !tunes || n > 99
            &&& agent.tuning is None <==> !tunes || n > 99
            &&& agent.profile == BiddingAgent::fresh(class).profile
        }),
{
    lemma_samples_taken(class, n);
    lemma_settings_stay(BiddingAgent::fresh(class), n);
}

/// Each bid of an agent that tunes takes one sample, and one of an agent that has settled
/// changes nothing.
pub proof fn law_bid_takes_one_sample(agent: BiddingAgent)
    requires
        agent.wf(),
    ensures
        agent.stepped().profile == agent.profile,
        agent.tuning is None ==> agent.stepped() == agent && agent.phase() == BidPhase::Steady,
        agent.tuning matches Some(samples) ==> {
            &&& samples < 99 ==> agent.stepped().tuning == Some((samples + 1) as usize)
                && agent.phase() == BidPhase::Explore
            &&& samples == 99 ==> agent.stepped().tuning is None && agent.phase()
                == BidPhase::Settle
        },
{
}

/// No bid changes the settings.
proof fn lemma_settings_stay(agent: BiddingAgent, n: nat)
    ensures
        agent.after_bids(n).profile == agent.profile,
    decreases n,
{
    if n > 0 {
        lemma_settings_stay(agent, (n - 1) as nat);
    }
}

} // verus!
