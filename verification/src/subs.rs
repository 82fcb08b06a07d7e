//! The subscription store: a table of feed sources, each a URL and a
//! free-form profile label under a store-assigned identifier. Sources
//! are only ever added and listed; re-adding a URL makes a second row.

use vstd::prelude::*;

verus! {

/// A registered feed source.
pub struct RssEntity {
    pub id: u8,
    pub rss_url: String,
    pub profile: String,
}

impl Clone for RssEntity {
    fn clone(&self) -> (r: Self)
        ensures
            r == *self,
    {
        RssEntity { id: self.id, rss_url: self.rss_url.clone(), profile: self.profile.clone() }
    }
}

/// The mathematical content of one subscription row.
pub ghost struct SubModel {
    pub id: u8,
    pub rss_url: Seq<char>,
    pub profile: Seq<char>,
}

/// The mathematical content of a subscription value.
pub open spec fn sub_abs(e: RssEntity) -> SubModel {
    SubModel { id: e.id, rss_url: e.rss_url@, profile: e.profile@ }
}

/// The table of feed sources, in insertion order.
pub struct SubscriptionStore {
    subs: Vec<RssEntity>,
}

impl View for SubscriptionStore {
    type V = Seq<SubModel>;

    closed spec fn view(&self) -> Seq<SubModel> {
        self.subs@.map_values(|e: RssEntity| sub_abs(e))
    }
}

impl SubscriptionStore {
    /// An empty table.
    pub fn new() -> (r: SubscriptionStore)
        ensures
            r@ == Seq::<SubModel>::empty(),
    {
        let r = SubscriptionStore { subs: Vec::new() };
        proof {
            assert(r@ =~= Seq::<SubModel>::empty());
        }
        r
    }

    /// Registers a feed source. The URL must be non-empty; duplicates
    /// are deliberately not rejected at this layer. The row gets the
    /// next identifier, counting from one.
    pub fn save(&mut self, rss_url: String, profile: String) -> (r: RssEntity)
        requires
            rss_url@.len() > 0,
            old(self)@.len() < 255,
        ensures
            final(self)@ == old(self)@.push(
                SubModel {
                    id: (old(self)@.len() + 1) as u8,
                    rss_url: rss_url@,
                    profile: profile@,
                },
            ),
            sub_abs(r) == final(self)@.last(),
    {
        let id: u8 = (self.subs.len() as u8) + 1;
        let entity = RssEntity { id, rss_url, profile };
        let kept = entity.clone();
        self.subs.push(kept);
        proof {
            assert(self@ =~= old(self)@.push(sub_abs(entity)));
        }
        entity
    }

    /// Every registered source, in insertion order.
    pub fn get_many(&self) -> (r: Vec<RssEntity>)
        ensures
            r@.map_values(|e: RssEntity| sub_abs(e)) == self@,
    {
        let mut r: Vec<RssEntity> = Vec::new();
        let mut i: usize = 0;
        while i < self.subs.len()
            invariant
                i <= self.subs@.len(),
                r@.map_values(|e: RssEntity| sub_abs(e)) == self@.take(i as int),
            decreases self.subs@.len() - i,
        {
            let ghost prev = r@;
            r.push(self.subs[i].clone());
            proof {
                assert(r@.map_values(|e: RssEntity| sub_abs(e)) =~= prev.map_values(
                    |e: RssEntity| sub_abs(e),
                ).push(sub_abs(self.subs@[i as int])));
                assert(self@.take(i + 1) =~= self@.take(i as int).push(self@[i as int]));
            }
            i = i + 1;
        }
        proof {
            assert(self@.take(self.subs@.len() as int) =~= self@);
        }
        r
    }

    /// How many sources are registered.
    pub fn count(&self) -> (r: usize)
        ensures
            r == self@.len(),
    {
        self.subs.len()
    }
}

} // verus!
