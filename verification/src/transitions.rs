//! Key-tree transitions: the public statement of a retention proof, and the
//! keys that witness it.
//!
//! A transition lists what is claimed of the keys at named nodes: that a node's
//! key has a commitment, that it is derived from another node's key, or that a
//! ciphertext holds it under another node's key. Proving and verifying a
//! transition is the proof system's work; which transition stands for which
//! operation is decided here.

use crate::keys::{EncryptedKeyMaterial, KeyCommitment, KeyMaterial};
use crate::text_map::TextMap;
use crate::tree_keys;
use crate::tree_keys::channel_grant_tag;
use vstd::prelude::*;
use vstd::string::*;

verus! {

/// The name of a node in a transition.
#[derive(Debug, PartialEq, Eq)]
pub struct CanonicalPath {
    pub text: String,
}

impl View for CanonicalPath {
    type V = Seq<char>;

    open spec fn view(&self) -> Seq<char> {
        self.text@
    }
}

impl Clone for CanonicalPath {
    fn clone(&self) -> (r: Self)
        ensures
            r@ == self@,
    {
        CanonicalPath { text: self.text.clone() }
    }
}

/// The path of the child `name` of `parent`.
pub open spec fn child_path(parent: Seq<char>, name: Seq<char>) -> Seq<char> {
    parent + "/"@ + name
}

/// Children of one node are told apart by their names.
pub proof fn lemma_child_path_injective(parent: Seq<char>, a: Seq<char>, b: Seq<char>)
    requires
        child_path(parent, a) == child_path(parent, b),
    ensures
        a == b,
{
    let start = (parent + "/"@).len() as int;
    assert(child_path(parent, a).skip(start) =~= a);
    assert(child_path(parent, b).skip(start) =~= b);
}

impl CanonicalPath {
    pub fn new(text: &str) -> (r: Self)
        ensures
            r@ == text@,
    {
        CanonicalPath { text: text.to_owned() }
    }

    pub fn child(&self, name: &str) -> (r: Self)
        ensures
            r@ == child_path(self@, name@),
    {
        let mut text = self.text.clone();
        text.append("/");
        text.append(name);
        CanonicalPath { text }
    }
}

/// What a derivation or an encryption is for.
#[derive(Clone, Copy, Debug, PartialEq, Eq, Structural)]
pub enum TransitionTag {
    /// The next data key of the line.
    DataDerive,
    /// The next group key by derivation.
    GroupDerive,
    /// An older key of the group chain under the next newer one.
    ChainLink,
    /// A data key head under a group chain key.
    DataHeadEncrypt,
    /// The subtree key of one channel.
    ChannelGrant(i64),
}

/// The text under which a derivation for `tag` is made, where it is this
/// library's: a channel's subtree key is derived as `channel_root` derives it.
/// The tags of the group line are the key derivation backend's.
pub open spec fn derivation_text(tag: TransitionTag) -> Option<Seq<char>> {
    match tag {
        TransitionTag::ChannelGrant(channel) => Some(tree_keys::channel_root_tag(channel)),
        _ => None,
    }
}

impl TransitionTag {
    /// The text under which a derivation for this tag is made; none for the tags
    /// of the group line.
    pub fn derivation_tag(self) -> (r: Option<String>)
        ensures
            match derivation_text(self) {
                Some(text) => r is Some && r->Some_0@ == text,
                None => r is None,
            },
    {
        match self {
            TransitionTag::ChannelGrant(channel) => Some(channel_grant_tag(channel)),
            _ => None,
        }
    }
}

/// One claim of a transition.
#[derive(Debug, PartialEq, Eq)]
pub enum TransitionStep {
    /// The key at `node` has this commitment.
    Commit { node: CanonicalPath, commitment: KeyCommitment },
    /// The key at `child` is derived from the key at `parent`.
    Derive { parent: CanonicalPath, child: CanonicalPath, tag: TransitionTag },
    /// The ciphertext holds the key at `child` under the key at `parent`.
    Encrypt {
        child: CanonicalPath,
        parent: CanonicalPath,
        tag: TransitionTag,
        ciphertext: EncryptedKeyMaterial,
    },
}

/// What a claim says.
#[verifier::ext_equal]
pub enum StepView {
    Commit { node: Seq<char>, commitment: Seq<u8> },
    Derive { parent: Seq<char>, child: Seq<char>, tag: TransitionTag },
    Encrypt { child: Seq<char>, parent: Seq<char>, tag: TransitionTag, ciphertext: Seq<u8> },
}

impl View for TransitionStep {
    type V = StepView;

    open spec fn view(&self) -> StepView {
        match self {
            TransitionStep::Commit { node, commitment } => StepView::Commit {
                node: node@,
                commitment: commitment@,
            },
            TransitionStep::Derive { parent, child, tag } => StepView::Derive {
                parent: parent@,
                child: child@,
                tag: *tag,
            },
            TransitionStep::Encrypt { child, parent, tag, ciphertext } => StepView::Encrypt {
                child: child@,
                parent: parent@,
                tag: *tag,
                ciphertext: ciphertext@,
            },
        }
    }
}

/// A list of claims.
#[derive(Debug, PartialEq, Eq)]
pub struct KeyTreeTransition {
    pub steps: Vec<TransitionStep>,
}

impl View for KeyTreeTransition {
    type V = Seq<StepView>;

    open spec fn view(&self) -> Seq<StepView> {
        self.steps@.map_values(|step: TransitionStep| step@)
    }
}

impl KeyTreeTransition {
    pub fn new() -> (r: Self)
        ensures
            r@ == Seq::<StepView>::empty(),
    {
        let r = KeyTreeTransition { steps: Vec::new() };
        assert(r@ =~= Seq::<StepView>::empty());
        r
    }

    /// How many claims there are.
    pub fn len(&self) -> (r: usize)
        ensures
            r == self@.len(),
    {
        self.steps.len()
    }

    fn add_step(&mut self, step: TransitionStep)
        ensures
            final(self)@ == old(self)@.push(step@),
    {
        self.steps.push(step);
        assert(self@ =~= old(self)@.push(step@));
    }

    /// Claims a commitment.
    pub fn commit(&mut self, node: CanonicalPath, commitment: KeyCommitment)
        ensures
            final(self)@ == old(self)@.push(
                (StepView::Commit { node: node@, commitment: commitment@ }),
            ),
    {
        self.add_step(TransitionStep::Commit { node, commitment });
    }

    /// Claims a derivation.
    pub fn derive(&mut self, parent: CanonicalPath, child: CanonicalPath, tag: TransitionTag)
        ensures
            final(self)@ == old(self)@.push(
                (StepView::Derive { parent: parent@, child: child@, tag }),
            ),
    {
        self.add_step(TransitionStep::Derive { parent, child, tag });
    }

    /// Claims what a ciphertext holds.
    pub fn encrypt(
        &mut self,
        child: CanonicalPath,
        parent: CanonicalPath,
        tag: TransitionTag,
        ciphertext: EncryptedKeyMaterial,
    )
        ensures
            final(self)@ == old(self)@.push(
                (StepView::Encrypt {
                    child: child@,
                    parent: parent@,
                    tag,
                    ciphertext: ciphertext@,
                }),
            ),
    {
        self.add_step(TransitionStep::Encrypt { child, parent, tag, ciphertext });
    }
}

/// The keys at the nodes of a transition, by the nodes' paths.
pub type WitnessKeys = TextMap<KeyMaterial>;

} // verus!
