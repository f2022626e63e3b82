//! The node lifecycle: a neuron is created, initialized with its signing
//! identity, runs, periodically takes in a fresh registry snapshot, and
//! stops without invalidating its identity. All chain traffic happens
//! outside; the core takes each fetched snapshot as a plain value.

use vstd::prelude::*;
use crate::config::SubnetConfig;
use crate::config::SubnetConfigV;
use crate::keys::Keypair;
use crate::records::NeuronRecord;
use crate::records::NeuronRecordV;
use crate::records::neuron_views;

verus! {

/// The lifecycle stages of a node.
#[derive(Clone, Copy, Debug, PartialEq, Eq, Structural)]
pub enum Stage {
    Created,
    Initialized,
    Running,
    Stopped,
}

/// Why a lifecycle operation was refused.
#[derive(Clone, Copy, Debug, PartialEq, Eq, Structural)]
pub enum NeuronError {
    /// The operation does not apply in the node's current stage.
    WrongStage,
}

/// One fetched chain state: the block height and the registry records.
pub struct ChainSnapshot {
    pub block: u64,
    pub neurons: Vec<NeuronRecord>,
}

/// The mathematical value of a node's state.
pub ghost struct BaseNeuronV {
    pub config: SubnetConfigV,
    pub stage: Stage,
    pub keypair: Option<(Seq<u8>, Seq<u8>)>,
    pub neurons: Seq<NeuronRecordV>,
    pub block: u64,
    pub step: u64,
    pub score: u16,
}

/// A node: its configuration, lifecycle stage, signing identity once
/// initialized, the last synced registry snapshot, and its counters.
pub struct BaseNeuron {
    pub config: SubnetConfig,
    pub stage: Stage,
    pub keypair: Option<Keypair>,
    pub neurons: Vec<NeuronRecord>,
    pub block: u64,
    pub step: u64,
    pub score: u16,
}

impl View for BaseNeuron {
    type V = BaseNeuronV;

    open spec fn view(&self) -> BaseNeuronV {
        BaseNeuronV {
            config: self.config@,
            stage: self.stage,
            keypair: match self.keypair {
                Some(k) => Some((k.seed_view(), k.account_view())),
                None => None,
            },
            neurons: neuron_views(self.neurons@),
            block: self.block,
            step: self.step,
            score: self.score,
        }
    }
}

/// The state that taking in a snapshot leaves behind: the registry and
/// block replaced by the snapshot's, everything else untouched.
pub open spec fn synced_state(s: BaseNeuronV, block: u64, neurons: Seq<NeuronRecordV>) -> BaseNeuronV {
    BaseNeuronV {
        neurons,
        block,
        config: s.config,
        stage: s.stage,
        keypair: s.keypair,
        step: s.step,
        score: s.score,
    }
}

/// Taking in the same snapshot twice is the same as taking it in once:
/// with no intervening chain change, a second sync changes nothing.
pub proof fn lemma_sync_idempotent(s: BaseNeuronV, block: u64, neurons: Seq<NeuronRecordV>)
    ensures
        synced_state(synced_state(s, block, neurons), block, neurons) == synced_state(
            s,
            block,
            neurons,
        ),
{
}

impl BaseNeuron {
    /// A freshly created node: no identity, no registry, counters at zero.
    pub fn new(config: SubnetConfig) -> (n: BaseNeuron)
        ensures
            n@.config == config@,
            n@.stage == Stage::Created,
            n@.keypair is None,
            n@.neurons.len() == 0,
            n@.block == 0,
            n@.step == 0,
            n@.score == 0,
    {
        let n = BaseNeuron {
            config,
            stage: Stage::Created,
            keypair: None,
            neurons: Vec::new(),
            block: 0,
            step: 0,
            score: 0,
        };
        proof {
            assert(neuron_views(n.neurons@) =~= Seq::<NeuronRecordV>::empty());
        }
        n
    }

    /// One-time setup: adopts the signing identity and becomes
    /// Initialized. Applies only to a Created node; failure leaves the
    /// node unchanged, and it may not enter Running.
    pub fn init(&mut self, keypair: Keypair) -> (r: Result<(), NeuronError>)
        ensures
            match r {
                Ok(()) => old(self)@.stage == Stage::Created && final(self)@ == (BaseNeuronV {
                    stage: Stage::Initialized,
                    keypair: Some((keypair.seed_view(), keypair.account_view())),
                    ..old(self)@
                }),
                Err(e) => old(self)@.stage != Stage::Created && e == NeuronError::WrongStage
                    && final(self)@ == old(self)@,
            },
    {
        match self.stage {
            Stage::Created => {
                self.stage = Stage::Initialized;
                self.keypair = Some(keypair);
                Ok(())
            },
            _ => Err(NeuronError::WrongStage),
        }
    }

    /// Enters Running: the long-lived loop around `sync` may begin.
    /// Applies only to an Initialized node.
    pub fn start(&mut self) -> (r: Result<(), NeuronError>)
        ensures
            match r {
                Ok(()) => old(self)@.stage == Stage::Initialized && final(self)@ == (BaseNeuronV {
                    stage: Stage::Running,
                    ..old(self)@
                }),
                Err(e) => old(self)@.stage != Stage::Initialized && e == NeuronError::WrongStage
                    && final(self)@ == old(self)@,
            },
    {
        match self.stage {
            Stage::Initialized => {
                self.stage = Stage::Running;
                Ok(())
            },
            _ => Err(NeuronError::WrongStage),
        }
    }

    /// Takes in a fetched snapshot: replaces the registry and block
    /// height in one step, leaving identity, stage, and counters as they
    /// were. Repeated calls with the same snapshot leave the state
    /// unchanged after the first.
    pub fn sync(&mut self, snapshot: ChainSnapshot)
        requires
            old(self)@.stage == Stage::Initialized || old(self)@.stage == Stage::Running,
        ensures
            final(self)@ == synced_state(
                old(self)@,
                snapshot.block,
                neuron_views(snapshot.neurons@),
            ),
    {
        self.neurons = snapshot.neurons;
        self.block = snapshot.block;
    }

    /// Advances the epoch counter by one step of the run loop.
    pub fn advance_step(&mut self)
        requires
            old(self)@.step < u64::MAX,
        ensures
            final(self)@ == (BaseNeuronV { step: (old(self)@.step + 1) as u64, ..old(self)@ }),
    {
        self.step = self.step + 1;
    }

    /// The cached score, with no I/O. How the score is computed is the
    /// caller's concern; the node only stores it.
    pub fn get_score(&self) -> (r: u16)
        ensures
            r == self@.score,
    {
        self.score
    }

    /// Stores a freshly computed score.
    pub fn set_score(&mut self, score: u16)
        ensures
            final(self)@ == (BaseNeuronV { score, ..old(self)@ }),
    {
        self.score = score;
    }

    /// Graceful stop: the node leaves Running, and its identity and last
    /// synced state stay valid for resumption or shutdown.
    pub fn stop(&mut self) -> (r: Result<(), NeuronError>)
        ensures
            match r {
                Ok(()) => old(self)@.stage == Stage::Running && final(self)@ == (BaseNeuronV {
                    stage: Stage::Stopped,
                    ..old(self)@
                }),
                Err(e) => old(self)@.stage != Stage::Running && e == NeuronError::WrongStage
                    && final(self)@ == old(self)@,
            },
    {
        match self.stage {
            Stage::Running => {
                self.stage = Stage::Stopped;
                Ok(())
            },
            _ => Err(NeuronError::WrongStage),
        }
    }
}

/// The lifecycle contract a node implementation answers to: setup only
/// once from Created, running only after setup, and a score with no I/O.
pub trait Neuron: Sized {
    /// The node's current lifecycle stage.
    spec fn stage_of(&self) -> Stage;

    /// One-time setup with the signing identity; only a Created node may
    /// succeed, and only success may lead on toward Running.
    fn init(&mut self, keypair: Keypair) -> (r: Result<(), NeuronError>)
        ensures
            r is Ok ==> old(self).stage_of() == Stage::Created && final(self).stage_of()
                == Stage::Initialized,
            r is Err ==> final(self).stage_of() == old(self).stage_of(),
    ;

    /// Enters the Running stage; only an Initialized node may succeed.
    fn run(&mut self) -> (r: Result<(), NeuronError>)
        ensures
            r is Ok ==> old(self).stage_of() == Stage::Initialized && final(self).stage_of()
                == Stage::Running,
            r is Err ==> final(self).stage_of() == old(self).stage_of(),
    ;

    /// Takes in a fetched snapshot without changing the stage.
    fn sync(&mut self, snapshot: ChainSnapshot) -> (r: Result<(), NeuronError>)
        requires
            old(self).stage_of() == Stage::Initialized || old(self).stage_of() == Stage::Running,
        ensures
            final(self).stage_of() == old(self).stage_of(),
    ;

    /// The cached score, with no I/O.
    fn get_score(&self) -> u16;
}

impl Neuron for BaseNeuron {
    open spec fn stage_of(&self) -> Stage {
        self.stage
    }

    fn init(&mut self, keypair: Keypair) -> (r: Result<(), NeuronError>) {
        BaseNeuron::init(self, keypair)
    }

    fn run(&mut self) -> (r: Result<(), NeuronError>) {
        self.start()
    }

    fn sync(&mut self, snapshot: ChainSnapshot) -> (r: Result<(), NeuronError>) {
        BaseNeuron::sync(self, snapshot);
        Ok(())
    }

    fn get_score(&self) -> u16 {
        BaseNeuron::get_score(self)
    }
}

} // verus!
