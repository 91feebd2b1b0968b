use crate::entity_manager::{Id, Kind};
use crate::order::{ids_of, sort_by_layer, Layered};
use crate::scheduler::{bumped, System};
use crate::world::World;
use std::sync::Arc;
use vstd::prelude::*;

verus! {

/// What the host loop hands to the systems.
pub enum Event {
    /// A simulation step, with the time elapsed since the last one.
    Tick { elapsed_nanos: u64 },
    /// A frame is to be drawn.
    Draw,
    /// Raw input from the window.
    Input { payload: Vec<u8> },
}

/// Draws one entity's sprite as seen by a camera entity.
pub trait Drawable<V> {
    /// The layer `entity` is drawn on, as `layer` reports it.
    spec fn layer_of(&self, world: &World<V>, entity: Id) -> i64;

    /// The (entity, camera) pairs drawn so far, in order.
    spec fn drawn(&self) -> Vec<(Id, Id)>;

    /// The layer the entity is drawn on: lower layers first.
    fn layer(&self, world: &World<V>, entity: Id) -> (r: i64)
        ensures
            r == self.layer_of(world, entity),
    ;

    /// Draws `entity` as seen by `camera`; a failed draw draws nothing.
    fn draw(&mut self, entity: Id, camera: Id, world: &World<V>) -> (r: Result<(), String>)
        ensures
            r is Ok ==> final(self).drawn()@ == old(self).drawn()@.push((entity, camera)),
            r is Err ==> final(self).drawn()@ == old(self).drawn()@,
    ;
}

/// The draws of the entities of `order`, in that order, each seen by `camera`.
pub open spec fn draws_of(order: Seq<Layered>, camera: Id) -> Seq<(Id, Id)> {
    order.map_values(|p: Layered| (p.0, camera))
}

/// The drawable for textured sprites; its drawing goes to the graphics backend.
pub struct SpriteDrawable;

impl SpriteDrawable {
    pub fn new() -> (r: Arc<Self>) {
        Arc::new(SpriteDrawable)
    }
}

/// The component kinds a sprite pass reads. An entity takes part only while it
/// also has the `active` marker kind.
pub struct SpriteRenderer {
    pub camera: Kind,
    pub transform: Kind,
    pub sprite: Kind,
    pub active: Kind,
}

impl SpriteRenderer {
    /// The kinds of an active camera.
    pub open spec fn camera_kinds(&self) -> Seq<Kind> {
        seq![self.camera, self.transform, self.active]
    }

    /// The kinds of an active sprite.
    pub open spec fn sprite_kinds(&self) -> Seq<Kind> {
        seq![self.sprite, self.transform, self.active]
    }

    /// The live entities with an active sprite and transform.
    pub open spec fn sprite_set<V>(&self, world: &World<V>) -> Set<Id> {
        Set::new(|id: Id| world.has_all(id, self.sprite_kinds()))
    }

    /// Some live entity is an active camera.
    pub open spec fn has_camera<V>(&self, world: &World<V>) -> bool {
        exists|c: Id| world.has_all(c, self.camera_kinds())
    }

    /// `order` holds each sprite entity once, with the layer the drawable gives it,
    /// by ascending layer and then ascending identifier.
    pub open spec fn is_draw_order<V, D: Drawable<V>>(
        &self,
        world: &World<V>,
        drawable: &D,
        order: Seq<Layered>,
    ) -> bool {
        &&& crate::order::layer_sorted(order)
        &&& forall|i: int|
            0 <= i < order.len() ==> (#[trigger] order[i]).1 == drawable.layer_of(world, order[i].0)
        &&& ids_of(order).to_set() == self.sprite_set(world)
        &&& order.len() == self.sprite_set(world).len()
    }

    /// A live entity that is an active camera, if there is one.
    pub fn find_camera<V>(&self, world: &World<V>) -> (r: Option<Id>)
        ensures
            r matches Some(c) ==> world.has_all(c, self.camera_kinds()),
            r is None ==> !self.has_camera(world),
    {
        let kinds = vec![self.camera, self.transform, self.active];
        assert(kinds@ == self.camera_kinds());
        let found = world.query(&kinds);
        if found.len() == 0 {
            assert forall|id: Id| !world.has_all(id, self.camera_kinds()) by {
                if world.has_all(id, self.camera_kinds()) {
                    assert(found@.contains(id));
                }
            }
            None
        } else {
            assert(found@.contains(found@[0]));
            Some(found[0])
        }
    }

    /// The sprite entities with their layers, in draw order.
    pub fn draw_order<V, D: Drawable<V>>(&self, world: &World<V>, drawable: &D) -> (r: Vec<
        Layered,
    >)
        ensures
            self.is_draw_order(world, drawable, r@),
    {
        let kinds = vec![self.sprite, self.transform, self.active];
        assert(kinds@ == self.sprite_kinds());
        let ids = world.query(&kinds);
        let mut items: Vec<Layered> = Vec::new();
        let mut i: usize = 0;
        while i < ids.len()
            invariant
                i <= ids@.len(),
                items@.len() == i,
                ids_of(items@) == ids@.take(i as int),
                forall|j: int|
                    0 <= j < i ==> (#[trigger] items@[j]).1 == drawable.layer_of(world, items@[j].0),
            decreases ids@.len() - i,
        {
            let id = ids[i];
            let layer = drawable.layer(world, id);
            let ghost prev = items@;
            items.push((id, layer));
            proof {
                assert forall|k: int| 0 <= k < i implies ids_of(items@)[k] == ids@[k] by {
                    assert(items@[k] == prev[k]);
                    assert(ids_of(prev)[k] == ids@.take(i as int)[k]);
                }
                assert(ids_of(items@) =~= ids@.take(i + 1));
                assert forall|j: int| 0 <= j < i + 1 implies (#[trigger] items@[j]).1
                    == drawable.layer_of(world, items@[j].0) by {
                    if j < i {
                        assert(items@[j] == prev[j]);
                    }
                }
            }
            i = i + 1;
        }
        let r = sort_by_layer(&items);
        proof {
            assert(ids@.take(ids@.len() as int) =~= ids@);
            lemma_ids_of_permutation(r@, items@);
            ids@.unique_seq_to_set();
            assert(ids@.to_set() =~= self.sprite_set(world));
            assert(ids_of(r@).to_set() =~= self.sprite_set(world));
            assert forall|j: int| 0 <= j < r@.len() implies (#[trigger] r@[j]).1 == drawable.layer_of(
                world,
                r@[j].0,
            ) by {
                broadcast use vstd::seq_lib::group_to_multiset_ensures;

                assert(r@.contains(r@[j]));
                vstd::seq_lib::to_multiset_contains(r@, r@[j]);
                vstd::seq_lib::to_multiset_contains(items@, r@[j]);
                let k = choose|k: int| 0 <= k < items@.len() && items@[k] == r@[j];
                assert(items@[k].1 == drawable.layer_of(world, items@[k].0));
            }
        }
        r
    }

    /// Draws every sprite in draw order as seen by an active camera, stopping at the
    /// first failed draw; draws nothing when there is no active camera. Returns how
    /// many were drawn.
    pub fn draw<V, D: Drawable<V>>(&self, world: &World<V>, drawable: &mut D) -> (r: Result<
        usize,
        String,
    >)
        ensures
            !self.has_camera(world) ==> r == Ok::<usize, String>(0) && final(drawable).drawn()@
                == old(drawable).drawn()@,
            r matches Ok(n) ==> self.has_camera(world) ==> exists|c: Id, order: Seq<Layered>|
                world.has_all(c, self.camera_kinds()) && self.is_draw_order(
                    world,
                    old(drawable),
                    order,
                ) && n == order.len() && final(drawable).drawn()@ == old(drawable).drawn()@
                    + draws_of(order, c),
            r is Err ==> exists|c: Id, order: Seq<Layered>, k: int|
                world.has_all(c, self.camera_kinds()) && self.is_draw_order(
                    world,
                    old(drawable),
                    order,
                ) && 0 <= k < order.len() && final(drawable).drawn()@ == old(drawable).drawn()@
                    + draws_of(order.take(k), c),
    {
        let camera = match self.find_camera(world) {
            Some(c) => c,
            None => {
                return Ok(0);
            },
        };
        let order = self.draw_order(world, drawable);
        let ghost start = drawable.drawn()@;
        let mut i: usize = 0;
        while i < order.len()
            invariant
                i <= order@.len(),
                world.has_all(camera, self.camera_kinds()),
                self.is_draw_order(world, old(drawable), order@),
                drawable.drawn()@ == start + draws_of(order@.take(i as int), camera),
                start == old(drawable).drawn()@,
            decreases order@.len() - i,
        {
            let (id, _) = order[i];
            match drawable.draw(id, camera, world) {
                Ok(()) => {},
                Err(e) => {
                    return Err(e);
                },
            }
            assert(draws_of(order@.take(i + 1), camera) =~= draws_of(order@.take(i as int), camera).push(
                (id, camera),
            ));
            i = i + 1;
        }
        assert(order@.take(order@.len() as int) =~= order@);
        Ok(order.len())
    }
}

/// Sorting keeps the set of identifiers, and their count.
proof fn lemma_ids_of_permutation(r: Seq<Layered>, items: Seq<Layered>)
    requires
        r.to_multiset() == items.to_multiset(),
    ensures
        forall|id: Id|
            #[trigger] ids_of(r).contains(id) <==> ids_of(items).contains(id),
        r.len() == items.len(),
{
    broadcast use vstd::seq_lib::group_to_multiset_ensures;

    vstd::seq_lib::to_multiset_len(r);
    vstd::seq_lib::to_multiset_len(items);
    assert forall|id: Id| #[trigger] ids_of(r).contains(id) implies ids_of(items).contains(id) by {
        let j = choose|j: int| 0 <= j < r.len() && ids_of(r)[j] == id;
        assert(r.contains(r[j]));
        vstd::seq_lib::to_multiset_contains(r, r[j]);
        vstd::seq_lib::to_multiset_contains(items, r[j]);
        let k = choose|k: int| 0 <= k < items.len() && items[k] == r[j];
        assert(ids_of(items)[k] == id);
    }
    assert forall|id: Id| #[trigger] ids_of(items).contains(id) implies ids_of(r).contains(id) by {
        let j = choose|j: int| 0 <= j < items.len() && ids_of(items)[j] == id;
        assert(items.contains(items[j]));
        vstd::seq_lib::to_multiset_contains(r, items[j]);
        vstd::seq_lib::to_multiset_contains(items, items[j]);
        let k = choose|k: int| 0 <= k < r.len() && r[k] == items[j];
        assert(ids_of(r)[k] == id);
    }
}

impl<D> Renderer<D> {
    fn count_run(&mut self)
        ensures
            final(self).runs == bumped(old(self).runs),
            final(self).sprites == old(self).sprites,
            final(self).drawable == old(self).drawable,
    {
        if self.runs == u64::MAX {
            self.runs = 0;
        } else {
            self.runs = self.runs + 1;
        }
    }
}

/// The system that draws the sprites on each draw event.
pub struct Renderer<D> {
    pub sprites: SpriteRenderer,
    pub drawable: D,
    /// How many events this system has handled.
    pub runs: u64,
}

impl<V, D: Drawable<V>> System<Event, V> for Renderer<D> {
    open spec fn runs(&self) -> u64 {
        self.runs
    }

    fn init(&mut self, world: &mut World<V>) -> (r: Result<(), String>) {
        self.count_run();
        Ok(())
    }

    /// Draws the sprites on a draw event; other events are ignored and draw nothing.
    /// The world is left as it was.
    fn update(&mut self, event: &Event, world: &mut World<V>) -> (r: Result<(), String>)
        ensures
            !(*event is Draw) ==> r is Ok && final(self).drawable.drawn()@ == old(self).drawable.drawn()@,
            *event is Draw && !old(self).sprites.has_camera(&*old(world)) ==> r is Ok && final(self).drawable.drawn()@ == old(self).drawable.drawn()@,
            *event is Draw && old(self).sprites.has_camera(&*old(world)) && r is Ok ==> exists|
                c: Id,
                order: Seq<Layered>,
            |
                old(world).has_all(c, old(self).sprites.camera_kinds()) && old(self).sprites.is_draw_order(&*old(world), &old(self).drawable, order) && final(self).drawable.drawn()@ == old(self).drawable.drawn()@ + draws_of(order, c),
            *event is Draw && r is Err ==> exists|c: Id, order: Seq<Layered>, k: int|
                old(world).has_all(c, old(self).sprites.camera_kinds()) && old(self).sprites.is_draw_order(&*old(world), &old(self).drawable, order) && 0 <= k
                    < order.len() && final(self).drawable.drawn()@ == old(self).drawable.drawn()@
                    + draws_of(order.take(k), c),
            final(self).sprites == old(self).sprites,
            final(world).entities() == old(world).entities(),
            final(world).components() == old(world).components(),
            final(world).free_list() == old(world).free_list(),
    {
        self.count_run();
        match event {
            Event::Draw => {
                self.sprites.draw(world, &mut self.drawable)?;
                Ok(())
            },
            _ => Ok(()),
        }
    }
}

} // verus!
