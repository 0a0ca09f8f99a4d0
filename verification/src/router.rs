//! The command router: which queues an inbound line reaches, and with
//! what text.

use crate::command::{
    broadcast_text, format_broadcast, format_join, format_private, join_text, parse_command,
    parsed, private_text, Command, CommandView,
};
use crate::name_map::{lemma_others, others};
use crate::registry::Registry;
use vstd::prelude::*;

verus! {

/// One line on its way into one client's outbound queue.
#[verifier::reject_recursive_types(H)]
pub struct Delivery<'a, H> {
    /// The username of the client that gets the line.
    pub recipient: &'a str,
    /// The handle of that client's queue.
    pub handle: &'a H,
    /// The line itself.
    pub line: String,
}

/// To whom each delivery goes and what it says.
pub open spec fn addressed<H>(deliveries: Seq<Delivery<H>>) -> Seq<(Seq<char>, Seq<char>)> {
    deliveries.map_values(|delivery: Delivery<H>| (delivery.recipient@, delivery.line@))
}

/// The same text for each of `names`, in their order.
pub open spec fn to_each(names: Seq<Seq<char>>, text: Seq<char>) -> Seq<(Seq<char>, Seq<char>)> {
    names.map_values(|name: Seq<char>| (name, text))
}

/// The recipients of `plan`, in its order.
pub open spec fn recipients(plan: Seq<(Seq<char>, Seq<char>)>) -> Seq<Seq<char>> {
    plan.map_values(|entry: (Seq<char>, Seq<char>)| entry.0)
}

/// What `line`, sent by `sender`, puts into whose queue, where `order`
/// lists the registered usernames: pairs of recipient and text.
///
/// A direct message goes to its target if that is registered, and is
/// dropped if not; the target may be the sender. A channel join and a
/// broadcast go to everybody but the sender. A malformed command goes to
/// nobody. The sender never hears of a failure.
pub open spec fn routed(order: Seq<Seq<char>>, sender: Seq<char>, line: Seq<char>) -> Seq<
    (Seq<char>, Seq<char>),
> {
    match parsed(line) {
        CommandView::DirectMessage { target, body } => if order.contains(target) {
            seq![(target, private_text(sender, body))]
        } else {
            Seq::empty()
        },
        CommandView::ChannelJoin { channel } => to_each(
            others(order, sender),
            join_text(sender, channel),
        ),
        CommandView::Broadcast { text } => to_each(
            others(order, sender),
            broadcast_text(sender, text),
        ),
        CommandView::Malformed => Seq::empty(),
    }
}

/// A text addressed to each of `names` reaches exactly these names, in
/// their order, and reads the same for all.
pub proof fn lemma_to_each(names: Seq<Seq<char>>, text: Seq<char>)
    ensures
        recipients(to_each(names, text)) == names,
        forall|i: int| 0 <= i < names.len() ==> (#[trigger] to_each(names, text)[i]).1 == text,
{
    assert(recipients(to_each(names, text)) =~= names);
}

/// A broadcast never comes back to its sender: every other registered
/// client gets the line once, as `[sender]: line`, and the sender gets
/// nothing.
pub proof fn lemma_broadcast_excludes_sender(
    order: Seq<Seq<char>>,
    sender: Seq<char>,
    line: Seq<char>,
)
    requires
        order.no_duplicates(),
        parsed(line) is Broadcast,
    ensures
        !recipients(routed(order, sender, line)).contains(sender),
        recipients(routed(order, sender, line)).no_duplicates(),
        forall|name: Seq<char>|
            order.contains(name) && name != sender ==> recipients(
                routed(order, sender, line),
            ).contains(name),
        forall|name: Seq<char>|
            recipients(routed(order, sender, line)).contains(name) ==> order.contains(name),
        forall|i: int|
            0 <= i < routed(order, sender, line).len() ==> (#[trigger] routed(
                order,
                sender,
                line,
            )[i]).1 == broadcast_text(sender, line),
{
    lemma_others(order, sender);
    lemma_to_each(others(order, sender), broadcast_text(sender, line));
}

/// A channel join is announced to every other registered client, once
/// each, as `[sender joined channel name]`, and not to the sender.
pub proof fn lemma_channel_join_notifies_others(
    order: Seq<Seq<char>>,
    sender: Seq<char>,
    line: Seq<char>,
    channel: Seq<char>,
)
    requires
        order.no_duplicates(),
        parsed(line) == (CommandView::ChannelJoin { channel }),
    ensures
        !recipients(routed(order, sender, line)).contains(sender),
        recipients(routed(order, sender, line)).no_duplicates(),
        forall|name: Seq<char>|
            order.contains(name) && name != sender ==> recipients(
                routed(order, sender, line),
            ).contains(name),
        forall|name: Seq<char>|
            recipients(routed(order, sender, line)).contains(name) ==> order.contains(name),
        forall|i: int|
            0 <= i < routed(order, sender, line).len() ==> (#[trigger] routed(
                order,
                sender,
                line,
            )[i]).1 == join_text(sender, channel),
{
    lemma_others(order, sender);
    lemma_to_each(others(order, sender), join_text(sender, channel));
}

/// A direct message to a registered target puts `[Private from sender]:
/// body` into the target's queue and nothing into any other.
pub proof fn lemma_direct_message_reaches_target_only(
    order: Seq<Seq<char>>,
    sender: Seq<char>,
    line: Seq<char>,
    target: Seq<char>,
    body: Seq<char>,
)
    requires
        parsed(line) == (CommandView::DirectMessage { target, body }),
        order.contains(target),
    ensures
        routed(order, sender, line) == seq![(target, private_text(sender, body))],
{
}

/// A direct message to a name that is not registered reaches no queue.
pub proof fn lemma_direct_message_to_stranger_is_dropped(
    order: Seq<Seq<char>>,
    sender: Seq<char>,
    line: Seq<char>,
    target: Seq<char>,
    body: Seq<char>,
)
    requires
        parsed(line) == (CommandView::DirectMessage { target, body }),
        !order.contains(target),
    ensures
        routed(order, sender, line).len() == 0,
{
}

/// A malformed command reaches no queue, whoever is registered.
pub proof fn lemma_malformed_reaches_nobody(
    order: Seq<Seq<char>>,
    sender: Seq<char>,
    line: Seq<char>,
)
    requires
        parsed(line) is Malformed,
    ensures
        routed(order, sender, line).len() == 0,
{
}

/// Addresses `text` to every registered client but `sender`.
fn fan_out<'a, H>(registry: &'a Registry<H>, sender: &str, text: String) -> (deliveries: Vec<
    Delivery<'a, H>,
>)
    requires
        registry.wf(),
    ensures
        addressed(deliveries@) == to_each(others(registry.order(), sender@), text@),
        forall|i: int|
            0 <= i < deliveries.len() ==> {
                &&& registry@.contains_key((#[trigger] deliveries[i]).recipient@)
                &&& *deliveries[i].handle == registry@[deliveries[i].recipient@]
            },
{
    let targets = registry.broadcast_targets(sender);
    let ghost names = others(registry.order(), sender@);
    let mut deliveries: Vec<Delivery<'a, H>> = Vec::new();
    let mut i: usize = 0;
    while i < targets.len()
        invariant
            0 <= i <= targets.len(),
            targets.len() == names.len(),
            forall|k: int|
                0 <= k < targets.len() ==> {
                    &&& (#[trigger] targets[k]).0@ == names[k]
                    &&& registry@.contains_key(targets[k].0@)
                    &&& *targets[k].1 == registry@[targets[k].0@]
                },
            deliveries.len() == i,
            forall|k: int|
                0 <= k < i ==> {
                    &&& (#[trigger] deliveries[k]).recipient@ == names[k]
                    &&& deliveries[k].line@ == text@
                    &&& registry@.contains_key(deliveries[k].recipient@)
                    &&& *deliveries[k].handle == registry@[deliveries[k].recipient@]
                },
        decreases targets.len() - i,
    {
        let (recipient, handle) = targets[i];
        deliveries.push(Delivery { recipient, handle, line: text.clone() });
        i = i + 1;
    }
    assert(addressed(deliveries@) =~= to_each(names, text@));
    deliveries
}

/// Routes one inbound line: decides from the registry, as it stands, into
/// whose queue which text goes. Nothing is sent here; the caller puts each
/// delivery's line into the queue behind its handle, and drops it quietly
/// where that queue takes no more.
pub fn route<'a, H>(registry: &'a Registry<H>, sender: &str, line: &'a str) -> (deliveries: Vec<
    Delivery<'a, H>,
>)
    requires
        registry.wf(),
    ensures
        addressed(deliveries@) == routed(registry.order(), sender@, line@),
        forall|i: int|
            0 <= i < deliveries.len() ==> {
                &&& registry@.contains_key((#[trigger] deliveries[i]).recipient@)
                &&& *deliveries[i].handle == registry@[deliveries[i].recipient@]
            },
{
    proof {
        registry.lemma_order_lists_entries();
    }
    match parse_command(line) {
        Command::DirectMessage { target, body } => {
            let mut deliveries: Vec<Delivery<'a, H>> = Vec::new();
            match registry.lookup(target) {
                Some(handle) => {
                    deliveries.push(
                        Delivery { recipient: target, handle, line: format_private(sender, body) },
                    );
                    assert(addressed(deliveries@) =~= seq![
                        (target@, private_text(sender@, body@)),
                    ]);
                },
                None => {
                    assert(addressed(deliveries@) =~= Seq::empty());
                },
            }
            deliveries
        },
        Command::ChannelJoin { channel } => fan_out(registry, sender, format_join(sender, channel)),
        Command::Broadcast { text } => fan_out(registry, sender, format_broadcast(sender, text)),
        Command::Malformed => {
            let deliveries: Vec<Delivery<'a, H>> = Vec::new();
            assert(addressed(deliveries@) =~= Seq::empty());
            deliveries
        },
    }
}

} // verus!
