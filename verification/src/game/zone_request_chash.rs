//! Joins and leaves that are asked for while the connection table is being
//! walked wait here, and are applied together once the walk is over.

use crate::game::client::cluster::{Cluster, ClusterView};
use vstd::prelude::*;

verus! {

/// A connection that was accepted and has not joined the table yet.
#[derive(Debug)]
pub struct ZonePlayerLogin {
    pub client_cluster: Cluster,
}

impl DeepView for ZonePlayerLogin {
    type V = ClusterView;

    open spec fn deep_view(&self) -> ClusterView {
        self.client_cluster@
    }
}

/// A connection that is to leave the table.
#[derive(Clone, Copy, Debug, PartialEq, Eq, Structural)]
pub struct ZonePlayerLogout {
    pub entity_id: u64,
}

impl DeepView for ZonePlayerLogout {
    type V = u64;

    open spec fn deep_view(&self) -> u64 {
        self.entity_id
    }
}

/// The joins and leaves that wait for the end of the tick.
#[derive(Debug)]
pub struct ZoneRequestChash {
    pub login_chash: Vec<ZonePlayerLogin>,
    pub logout_chash: Vec<ZonePlayerLogout>,
}

/// The mathematical value of a [`ZoneRequestChash`].
pub struct ZoneRequestChashView {
    /// The connections that wait to join, in the order they were accepted.
    pub joins: Seq<ClusterView>,
    /// The identities that are to leave, in the order they were named.
    pub leaves: Seq<u64>,
}

impl View for ZoneRequestChash {
    type V = ZoneRequestChashView;

    open spec fn view(&self) -> ZoneRequestChashView {
        ZoneRequestChashView {
            joins: self.login_chash.deep_view(),
            leaves: self.logout_chash.deep_view(),
        }
    }
}

impl ZoneRequestChash {
    pub fn new() -> (cache: Self)
        ensures
            cache@.joins == Seq::<ClusterView>::empty(),
            cache@.leaves == Seq::<u64>::empty(),
    {
        let cache = ZoneRequestChash { login_chash: Vec::new(), logout_chash: Vec::new() };
        assert(cache.login_chash.deep_view() =~= Seq::empty());
        assert(cache.logout_chash.deep_view() =~= Seq::empty());
        cache
    }

    /// Forgets every join and leave that waits.
    pub fn clear(&mut self)
        ensures
            final(self)@.joins == Seq::<ClusterView>::empty(),
            final(self)@.leaves == Seq::<u64>::empty(),
    {
        self.login_chash.clear();
        self.logout_chash.clear();
        assert(self.login_chash.deep_view() =~= Seq::empty());
        assert(self.logout_chash.deep_view() =~= Seq::empty());
    }

    /// Lets `client_cluster` wait to join.
    pub fn push_login(&mut self, client_cluster: Cluster)
        ensures
            final(self)@.joins == old(self)@.joins.push(client_cluster@),
            final(self)@.leaves == old(self)@.leaves,
    {
        self.login_chash.push(ZonePlayerLogin { client_cluster });
        assert(self.login_chash.deep_view() =~= old(self).login_chash.deep_view().push(
            client_cluster@,
        ));
    }

    /// Notes that `id` is to leave.
    pub fn push_logout(&mut self, id: u64)
        ensures
            final(self)@.joins == old(self)@.joins,
            final(self)@.leaves == old(self)@.leaves.push(id),
    {
        self.logout_chash.push(ZonePlayerLogout { entity_id: id });
        assert(self.logout_chash.deep_view() =~= old(self).logout_chash.deep_view().push(id));
    }

    /// Hands out the connections that wait to join, and forgets them.
    pub fn get_login_chash_take(&mut self) -> (joins: Vec<ZonePlayerLogin>)
        ensures
            joins.deep_view() == old(self)@.joins,
            final(self)@.joins == Seq::<ClusterView>::empty(),
            final(self)@.leaves == old(self)@.leaves,
    {
        let mut joins: Vec<ZonePlayerLogin> = Vec::new();
        core::mem::swap(&mut joins, &mut self.login_chash);
        assert(self.login_chash.deep_view() =~= Seq::empty());
        joins
    }

    /// Hands out the identities that are to leave, and forgets them.
    pub fn get_logout_chash_take(&mut self) -> (leaves: Vec<ZonePlayerLogout>)
        ensures
            leaves.deep_view() == old(self)@.leaves,
            final(self)@.leaves == Seq::<u64>::empty(),
            final(self)@.joins == old(self)@.joins,
    {
        let mut leaves: Vec<ZonePlayerLogout> = Vec::new();
        core::mem::swap(&mut leaves, &mut self.logout_chash);
        assert(self.logout_chash.deep_view() =~= Seq::empty());
        leaves
    }
}

} // verus!
