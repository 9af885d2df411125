//! Client configuration and the hook that observes state changes.

use vstd::prelude::*;
use crate::state::ClientState;
use crate::PACKET_SEND_RATE_MICROS;

verus! {

/// Observer of the client's state changes. It is called with the state that
/// is left and the state that is entered, before the client's state changes,
/// and may change the context that the configuration holds.
pub trait StateChangeHandler<Ctx>: Sized {
    /// What one call does, as the observer itself describes it: whether an
    /// observer that was `self`, told of the change from `from` to `to` with
    /// the context `ctx`, may be `after` and leave the context `ctx_after`.
    /// An observer that describes nothing may do anything.
    open spec fn told(
        self,
        from: ClientState,
        to: ClientState,
        ctx: Ctx,
        after: Self,
        ctx_after: Ctx,
    ) -> bool {
        true
    }

    /// Tells the observer of the change from `from` to `to`.
    fn state_changed(&mut self, from: ClientState, to: ClientState, ctx: &mut Ctx)
        ensures
            old(self).told(from, to, *old(ctx), *final(self), *final(ctx)),
    ;
}

/// The observer of a client that has none.
pub struct NoHandler {}

impl<Ctx> StateChangeHandler<Ctx> for NoHandler {
    /// A call changes neither the observer nor the context.
    open spec fn told(
        self,
        from: ClientState,
        to: ClientState,
        ctx: Ctx,
        after: Self,
        ctx_after: Ctx,
    ) -> bool {
        after == self && ctx_after == ctx
    }

    fn state_changed(&mut self, from: ClientState, to: ClientState, ctx: &mut Ctx) {
    }
}

/// Whether an observer that was `cb`, told of each of `changes` in turn, each
/// time with the context that the call before left, may be `after` and leave
/// the context `ctx_after`.
pub open spec fn told_each<Ctx, H: StateChangeHandler<Ctx>>(
    cb: H,
    ctx: Ctx,
    changes: Seq<(ClientState, ClientState)>,
    after: H,
    ctx_after: Ctx,
) -> bool
    decreases changes.len(),
{
    if changes.len() == 0 {
        after == cb && ctx_after == ctx
    } else {
        exists|mid: H, ctx_mid: Ctx|
            told_each(cb, ctx, changes.drop_last(), mid, ctx_mid) && #[trigger] mid.told(
                changes.last().0,
                changes.last().1,
                ctx_mid,
                after,
                ctx_after,
            )
    }
}

/// Whether an observer and a context that were `cb` and `ctx` when the record
/// of state changes read `record` may be `cb_after` and `ctx_after` when it
/// reads `record_after`: the record has only grown, and the observer, if
/// there is one, was told of each change that has come onto it, in order.
/// Without an observer the context is as it was.
pub open spec fn observed<Ctx, H: StateChangeHandler<Ctx>>(
    cb: Option<H>,
    ctx: Ctx,
    record: Seq<(ClientState, ClientState)>,
    cb_after: Option<H>,
    ctx_after: Ctx,
    record_after: Seq<(ClientState, ClientState)>,
) -> bool {
    &&& record.len() <= record_after.len()
    &&& record_after.take(record.len() as int) == record
    &&& match cb {
        Some(first) => cb_after is Some && told_each(
            first,
            ctx,
            record_after.skip(record.len() as int),
            cb_after->0,
            ctx_after,
        ),
        None => cb_after is None && ctx_after == ctx,
    }
}

/// Where nothing has come onto the record, the observer was told of nothing.
pub proof fn lemma_observed_nothing<Ctx, H: StateChangeHandler<Ctx>>(
    cb: Option<H>,
    ctx: Ctx,
    record: Seq<(ClientState, ClientState)>,
)
    ensures
        observed(cb, ctx, record, cb, ctx, record),
{
    assert(record.take(record.len() as int) =~= record);
    assert(record.skip(record.len() as int) =~= Seq::empty());
}

/// One call of the observer, for one change that comes onto the record.
pub proof fn lemma_observed_one<Ctx, H: StateChangeHandler<Ctx>>(
    cb: Option<H>,
    ctx: Ctx,
    record: Seq<(ClientState, ClientState)>,
    from: ClientState,
    to: ClientState,
    cb_after: Option<H>,
    ctx_after: Ctx,
)
    requires
        match cb {
            Some(first) => cb_after is Some && first.told(from, to, ctx, cb_after->0, ctx_after),
            None => cb_after is None && ctx_after == ctx,
        },
    ensures
        observed(cb, ctx, record, cb_after, ctx_after, record.push((from, to))),
{
    let grown = record.push((from, to));
    let changes = grown.skip(record.len() as int);
    assert(grown.take(record.len() as int) =~= record);
    assert(changes =~= seq![(from, to)]);
    assert(changes.drop_last() =~= Seq::empty());
    if let Some(first) = cb {
        assert(told_each(first, ctx, changes.drop_last(), first, ctx));
        assert(changes.last() == (from, to));
        assert(first.told(changes.last().0, changes.last().1, ctx, cb_after->0, ctx_after));
    }
}

/// Being told of some changes and then of more is being told of all of them.
pub proof fn lemma_told_each_chain<Ctx, H: StateChangeHandler<Ctx>>(
    cb: H,
    ctx: Ctx,
    first: Seq<(ClientState, ClientState)>,
    mid: H,
    ctx_mid: Ctx,
    then: Seq<(ClientState, ClientState)>,
    after: H,
    ctx_after: Ctx,
)
    requires
        told_each(cb, ctx, first, mid, ctx_mid),
        told_each(mid, ctx_mid, then, after, ctx_after),
    ensures
        told_each(cb, ctx, first + then, after, ctx_after),
    decreases then.len(),
{
    if then.len() == 0 {
        assert(first + then =~= first);
    } else {
        let (last, ctx_last) = choose|last: H, ctx_last: Ctx|
            told_each(mid, ctx_mid, then.drop_last(), last, ctx_last) && #[trigger] last.told(
                then.last().0,
                then.last().1,
                ctx_last,
                after,
                ctx_after,
            );
        lemma_told_each_chain(cb, ctx, first, mid, ctx_mid, then.drop_last(), last, ctx_last);
        assert((first + then).drop_last() =~= first + then.drop_last());
        assert((first + then).last() == then.last());
        assert(told_each(cb, ctx, (first + then).drop_last(), last, ctx_last));
    }
}

/// What was observed up to one point and from there to another was observed
/// from the first to the last.
pub proof fn lemma_observed_then<Ctx, H: StateChangeHandler<Ctx>>(
    cb: Option<H>,
    ctx: Ctx,
    record: Seq<(ClientState, ClientState)>,
    cb_mid: Option<H>,
    ctx_mid: Ctx,
    record_mid: Seq<(ClientState, ClientState)>,
    cb_after: Option<H>,
    ctx_after: Ctx,
    record_after: Seq<(ClientState, ClientState)>,
)
    requires
        observed(cb, ctx, record, cb_mid, ctx_mid, record_mid),
        observed(cb_mid, ctx_mid, record_mid, cb_after, ctx_after, record_after),
    ensures
        observed(cb, ctx, record, cb_after, ctx_after, record_after),
{
    assert(record_after.take(record.len() as int) =~= record_after.take(
        record_mid.len() as int,
    ).take(record.len() as int));
    if let Some(first) = cb {
        lemma_told_each_chain(
            first,
            ctx,
            record_mid.skip(record.len() as int),
            cb_mid->0,
            ctx_mid,
            record_after.skip(record_mid.len() as int),
            cb_after->0,
            ctx_after,
        );
        assert(record_mid.skip(record.len() as int) + record_after.skip(record_mid.len() as int)
            =~= record_after.skip(record.len() as int)) by {
            assert(record_mid =~= record_after.take(record_mid.len() as int));
        }
    }
}

/// Configuration of a client.
pub struct ClientConfig<Ctx, H> {
    num_disconnect_packets: usize,
    packet_send_rate: u64,
    context: Ctx,
    on_state_change: Option<H>,
}

impl ClientConfig<(), NoHandler> {
    /// The default configuration: ten disconnect packets, a tenth of a second
    /// between periodic packets, no context and no observer.
    pub fn new() -> (cfg: ClientConfig<(), NoHandler>)
        ensures
            cfg.spec_num_disconnect_packets() == 10,
            cfg.spec_packet_send_rate() == PACKET_SEND_RATE_MICROS,
            !cfg.has_handler(),
    {
        ClientConfig::default()
    }
}

impl Default for ClientConfig<(), NoHandler> {
    /// The default configuration: see [`ClientConfig::new`].
    fn default() -> (cfg: ClientConfig<(), NoHandler>)
        ensures
            cfg.spec_num_disconnect_packets() == 10,
            cfg.spec_packet_send_rate() == PACKET_SEND_RATE_MICROS,
            !cfg.has_handler(),
    {
        ClientConfig {
            num_disconnect_packets: 10,
            packet_send_rate: PACKET_SEND_RATE_MICROS,
            context: (),
            on_state_change: None,
        }
    }
}

impl<Ctx> ClientConfig<Ctx, NoHandler> {
    /// The default configuration with a context for a later observer.
    pub fn with_context(ctx: Ctx) -> (cfg: ClientConfig<Ctx, NoHandler>)
        ensures
            cfg.spec_num_disconnect_packets() == 10,
            cfg.spec_packet_send_rate() == PACKET_SEND_RATE_MICROS,
            cfg.spec_context() == ctx,
            !cfg.has_handler(),
    {
        ClientConfig {
            num_disconnect_packets: 10,
            packet_send_rate: PACKET_SEND_RATE_MICROS,
            context: ctx,
            on_state_change: None,
        }
    }
}

impl<Ctx, H> ClientConfig<Ctx, H> {
    /// Number of redundant disconnect packets that `disconnect` queues.
    pub closed spec fn spec_num_disconnect_packets(&self) -> usize {
        self.num_disconnect_packets
    }

    /// Least time between two periodic packets, in microseconds.
    pub closed spec fn spec_packet_send_rate(&self) -> u64 {
        self.packet_send_rate
    }

    /// The context that is handed to the observer.
    pub closed spec fn spec_context(&self) -> Ctx {
        self.context
    }

    /// The observer that is installed, if any.
    pub closed spec fn spec_handler(&self) -> Option<H> {
        self.on_state_change
    }

    /// Whether an observer is installed.
    pub open spec fn has_handler(&self) -> bool {
        self.spec_handler() is Some
    }

    /// Number of redundant disconnect packets that `disconnect` queues.
    pub fn disconnect_packet_count(&self) -> (count: usize)
        ensures
            count == self.spec_num_disconnect_packets(),
    {
        self.num_disconnect_packets
    }

    /// Least time between two periodic packets, in microseconds.
    pub fn send_rate_micros(&self) -> (rate: u64)
        ensures
            rate == self.spec_packet_send_rate(),
    {
        self.packet_send_rate
    }

    /// Sets the number of redundant disconnect packets.
    pub fn num_disconnect_packets(self, num_disconnect_packets: usize) -> (cfg: Self)
        ensures
            cfg.spec_num_disconnect_packets() == num_disconnect_packets,
            cfg.spec_packet_send_rate() == self.spec_packet_send_rate(),
            cfg.spec_context() == self.spec_context(),
            cfg.spec_handler() == self.spec_handler(),
    {
        let mut cfg = self;
        cfg.num_disconnect_packets = num_disconnect_packets;
        cfg
    }

    /// Sets the least time between two periodic packets, in microseconds.
    pub fn packet_send_rate(self, rate_micros: u64) -> (cfg: Self)
        ensures
            cfg.spec_num_disconnect_packets() == self.spec_num_disconnect_packets(),
            cfg.spec_packet_send_rate() == rate_micros,
            cfg.spec_context() == self.spec_context(),
            cfg.spec_handler() == self.spec_handler(),
    {
        let mut cfg = self;
        cfg.packet_send_rate = rate_micros;
        cfg
    }

    /// Installs an observer of state changes, in place of any earlier one.
    pub fn on_state_change<F: StateChangeHandler<Ctx>>(self, cb: F) -> (cfg: ClientConfig<Ctx, F>)
        ensures
            cfg.spec_num_disconnect_packets() == self.spec_num_disconnect_packets(),
            cfg.spec_packet_send_rate() == self.spec_packet_send_rate(),
            cfg.spec_context() == self.spec_context(),
            cfg.spec_handler() == Some(cb),
    {
        ClientConfig {
            num_disconnect_packets: self.num_disconnect_packets,
            packet_send_rate: self.packet_send_rate,
            context: self.context,
            on_state_change: Some(cb),
        }
    }
}

impl<Ctx, H: StateChangeHandler<Ctx>> ClientConfig<Ctx, H> {
    /// Tells the observer, if there is one, that the state is about to
    /// change: the observer is called once, with the two states and the
    /// configuration's context, and what it makes of itself and of the
    /// context is what the configuration holds afterwards. Without an
    /// observer nothing changes. The settings stay as they are either way.
    pub(crate) fn notify(&mut self, from: ClientState, to: ClientState)
        ensures
            final(self).spec_num_disconnect_packets() == old(self).spec_num_disconnect_packets(),
            final(self).spec_packet_send_rate() == old(self).spec_packet_send_rate(),
            match old(self).spec_handler() {
                Some(cb) => final(self).spec_handler() matches Some(after) && cb.told(
                    from,
                    to,
                    old(self).spec_context(),
                    after,
                    final(self).spec_context(),
                ),
                None => final(self).spec_handler() is None && final(self).spec_context() == old(self).spec_context(),
            },
    {
        match &mut self.on_state_change {
            Some(cb) => {
                cb.state_changed(from, to, &mut self.context);
            },
            None => {},
        }
    }
}

} // verus!
