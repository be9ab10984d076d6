//! Chat messages kept per channel, in the order they arrived.
use vstd::prelude::*;

verus! {

/// The kind of channel a message was sent over.
#[derive(Clone, Copy, Debug, PartialEq, Eq, Hash, Structural)]
pub enum ChannelType {
    Party,
    Squad,
    Reserved,
    Invalid,
}

/// A channel messages are grouped by.
#[derive(Clone, Copy, Debug, PartialEq, Eq, Hash, Structural)]
pub struct Channel {
    pub channel_id: u32,
    pub channel_type: ChannelType,
    pub subgroup: u8,
}

/// One message, without its channel. `timestamp` is in milliseconds since
/// the Unix epoch.
#[derive(Debug)]
pub struct ChatMessage {
    pub is_broadcast: bool,
    pub timestamp: i64,
    pub account_name: String,
    pub character_name: String,
    pub text: String,
}

/// A message as the host delivers it.
#[derive(Debug)]
pub struct ChatMessageInfo {
    pub channel_id: u32,
    pub channel_type: ChannelType,
    pub subgroup: u8,
    pub is_broadcast: bool,
    pub timestamp: i64,
    pub account_name: String,
    pub character_name: String,
    pub text: String,
}

/// The channel a delivered message belongs to.
pub open spec fn channel_of(info: ChatMessageInfo) -> Channel {
    Channel { channel_id: info.channel_id, channel_type: info.channel_type, subgroup: info.subgroup }
}

/// A delivered message without its channel.
pub open spec fn message_of(info: ChatMessageInfo) -> ChatMessage {
    ChatMessage {
        is_broadcast: info.is_broadcast,
        timestamp: info.timestamp,
        account_name: info.account_name,
        character_name: info.character_name,
        text: info.text,
    }
}

fn split_message(info: &ChatMessageInfo) -> (r: (Channel, ChatMessage))
    ensures
        r == (channel_of(*info), message_of(*info)),
{
    (
        Channel {
            channel_id: info.channel_id,
            channel_type: info.channel_type,
            subgroup: info.subgroup,
        },
        ChatMessage {
            is_broadcast: info.is_broadcast,
            timestamp: info.timestamp,
            account_name: info.account_name.clone(),
            character_name: info.character_name.clone(),
            text: info.text.clone(),
        },
    )
}

impl ChatMessage {
    /// A copy of the message.
    pub fn duplicate(&self) -> (r: ChatMessage)
        ensures
            r == *self,
    {
        ChatMessage {
            is_broadcast: self.is_broadcast,
            timestamp: self.timestamp,
            account_name: self.account_name.clone(),
            character_name: self.character_name.clone(),
            text: self.text.clone(),
        }
    }
}

/// All messages, grouped by channel: channels in the order their first
/// message arrived, each channel's messages in arrival order.
pub open spec fn flattened(groups: Seq<(Channel, Seq<ChatMessage>)>) -> Seq<(Channel, ChatMessage)>
    decreases groups.len(),
{
    if groups.len() == 0 {
        Seq::empty()
    } else {
        let last = groups.last();
        flattened(groups.drop_last()) + last.1.map_values(|m: ChatMessage| (last.0, m))
    }
}

/// Channels and their messages, as two parallel vectors.
struct Channels {
    channels: Vec<Channel>,
    messages: Vec<Vec<ChatMessage>>,
}

impl View for Channels {
    type V = Seq<(Channel, Seq<ChatMessage>)>;

    closed spec fn view(&self) -> Seq<(Channel, Seq<ChatMessage>)> {
        Seq::new(self.channels.len() as nat, |i: int| (self.channels@[i], self.messages@[i]@))
    }
}

impl Channels {
    /// Each channel has one list of messages, and no channel occurs twice.
    spec fn wf(&self) -> bool {
        &&& self.channels.len() == self.messages.len()
        &&& forall|i: int, j: int|
            0 <= i < self.channels.len() && 0 <= j < self.channels.len() && i != j
                ==> #[trigger] self.channels@[i] != #[trigger] self.channels@[j]
    }

    fn new() -> (r: Self)
        ensures
            r.wf(),
            r@ == Seq::<(Channel, Seq<ChatMessage>)>::empty(),
    {
        let r = Channels { channels: Vec::new(), messages: Vec::new() };
        assert(r@ =~= Seq::<(Channel, Seq<ChatMessage>)>::empty());
        r
    }

    fn add(&mut self, chat_message: &ChatMessageInfo)
        requires
            old(self).wf(),
        ensures
            final(self).wf(),
            ({
                let channel = channel_of(*chat_message);
                let msg = message_of(*chat_message);
                if exists|i: int| 0 <= i < old(self)@.len() && (#[trigger] old(self)@[i]).0 == channel {
                    exists|i: int|
                        0 <= i < old(self)@.len() && (#[trigger] old(self)@[i]).0 == channel
                            && final(self)@ == old(self)@.update(i, (channel, old(self)@[i].1.push(msg)))
                } else {
                    final(self)@ == old(self)@.push((channel, seq![msg]))
                }
            }),
    {
        let (channel, msg) = split_message(chat_message);
        let n = self.channels.len();
        for i in 0..n
            invariant
                n == self.channels.len(),
                self.wf(),
                self@ == old(self)@,
                channel == channel_of(*chat_message),
                msg == message_of(*chat_message),
                forall|j: int| 0 <= j < i ==> self.channels@[j] != channel,
        {
            if self.channels[i] == channel {
                let ghost before = self@;
                assert(before[i as int].0 == channel);
                self.messages[i].push(msg);
                assert(self@ =~= before.update(i as int, (channel, before[i as int].1.push(msg))));
                assert(old(self)@[i as int].0 == channel && before == old(self)@);
                return ;
            }
        }
        let ghost before = self@;
        assert(forall|j: int| 0 <= j < before.len() ==> (#[trigger] before[j]).0 != channel);
        self.channels.push(channel);
        let mut v: Vec<ChatMessage> = Vec::new();
        v.push(msg);
        self.messages.push(v);
        assert(v@ =~= seq![msg]);
        assert(self@ =~= before.push((channel, seq![msg])));
    }

    fn get_all_messages(&self) -> (r: Vec<(Channel, ChatMessage)>)
        requires
            self.wf(),
        ensures
            r@ == flattened(self@),
    {
        let mut result: Vec<(Channel, ChatMessage)> = Vec::new();
        let n = self.channels.len();
        for c in 0..n
            invariant
                n == self.channels.len(),
                self.wf(),
                result@ == flattened(self@.take(c as int)),
        {
            let channel = self.channels[c];
            let msgs = &self.messages[c];
            let m = msgs.len();
            let ghost done = result@;
            for k in 0..m
                invariant
                    m == msgs.len(),
                    result@ == done + msgs@.take(k as int).map_values(|x: ChatMessage| (channel, x)),
            {
                result.push((channel, msgs[k].duplicate()));
                assert(msgs@.take(k + 1).map_values(|x: ChatMessage| (channel, x)) =~= msgs@.take(
                    k as int,
                ).map_values(|x: ChatMessage| (channel, x)).push((channel, msgs@[k as int])));
            }
            proof {
                let t = self@.take(c + 1);
                assert(t.drop_last() =~= self@.take(c as int));
                assert(t.last() == (channel, msgs@));
                assert(msgs@.take(m as int) =~= msgs@);
            }
        }
        assert(self@.take(n as int) =~= self@);
        result
    }
}

/// The messages received, per channel.
pub struct ChatLog {
    channels: Channels,
}

impl View for ChatLog {
    type V = Seq<(Channel, Seq<ChatMessage>)>;

    closed spec fn view(&self) -> Seq<(Channel, Seq<ChatMessage>)> {
        self.channels@
    }
}

impl ChatLog {
    #[verifier::type_invariant]
    spec fn inv(&self) -> bool {
        self.channels.wf()
    }

    /// An empty log.
    pub fn new() -> (r: Self)
        ensures
            r@ == Seq::<(Channel, Seq<ChatMessage>)>::empty(),
    {
        ChatLog { channels: Channels::new() }
    }

    /// Records a delivered message under its channel; a channel not seen
    /// before is added after the others.
    pub fn add(&mut self, chat_message: &ChatMessageInfo)
        ensures
            ({
                let channel = channel_of(*chat_message);
                let msg = message_of(*chat_message);
                if exists|i: int| 0 <= i < old(self)@.len() && (#[trigger] old(self)@[i]).0 == channel {
                    exists|i: int|
                        0 <= i < old(self)@.len() && (#[trigger] old(self)@[i]).0 == channel
                            && final(self)@ == old(self)@.update(i, (channel, old(self)@[i].1.push(msg)))
                } else {
                    final(self)@ == old(self)@.push((channel, seq![msg]))
                }
            }),
    {
        proof {
            use_type_invariant(&*self);
        }
        let mut channels = Channels::new();
        std::mem::swap(&mut channels, &mut self.channels);
        channels.add(chat_message);
        self.channels = channels;
    }

    /// Every message with its channel: channels in the order they were first
    /// seen, each channel's messages in arrival order.
    pub fn get_all_messages(&self) -> (r: Vec<(Channel, ChatMessage)>)
        ensures
            r@ == flattened(self@),
    {
        proof {
            use_type_invariant(self);
        }
        self.channels.get_all_messages()
    }
}

} // verus!
