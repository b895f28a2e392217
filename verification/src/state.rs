//! The server's state: the media library, the renderer profiles, the devices.

use std::path::PathBuf;
use vstd::prelude::*;

use crate::media_item::MediaItem;
use crate::registry::DeviceRegistry;
use crate::renderer::{ConfigView, RendererConfiguration};
use crate::table::StringTable;

verus! {

/// The update counter after one change: one more, wrapping at `u32::MAX`.
pub open spec fn next_update_id(n: u32) -> u32 {
    if n == u32::MAX {
        0
    } else {
        (n + 1) as u32
    }
}

/// The state of the server.
#[derive(Debug)]
pub struct AppState {
    /// The media items, keyed by ID.
    pub library: StringTable<MediaItem>,
    /// Incremented whenever the library changes (for content directory updates).
    pub system_update_id: u32,
    /// Persistent UUID of the server.
    pub uuid: String,
    /// Directory being watched and served.
    pub content_dir: PathBuf,
    /// Loaded renderer profiles.
    pub renderers: Vec<RendererConfiguration>,
    /// The profile used when no other matches.
    pub default_renderer: RendererConfiguration,
    /// Discovered devices.
    pub registry: DeviceRegistry,
}

impl AppState {
    /// A state with an empty library and registry and update counter 1.
    pub fn new(
        uuid: String,
        content_dir: PathBuf,
        renderers: Vec<RendererConfiguration>,
        default_renderer: RendererConfiguration,
    ) -> (r: Self)
        ensures
            r.library.as_map() == Map::<Seq<char>, MediaItem>::empty(),
            r.system_update_id == 1,
            r.uuid == uuid,
            r.content_dir == content_dir,
            r.renderers == renderers,
            r.default_renderer == default_renderer,
            r.registry.devices() == Map::<crate::registry::IpAddress, crate::registry::RegisteredDevice>::empty(),
    {
        let registry = DeviceRegistry::new();
        AppState {
            library: StringTable::new(),
            system_update_id: 1,
            uuid,
            content_dir,
            renderers,
            default_renderer,
            registry,
        }
    }

    /// Adds or replaces the item with `item.id`, and counts the change.
    pub fn add_item(&mut self, item: MediaItem)
        ensures
            final(self).library.as_map() == old(self).library.as_map().insert(item.id@, item),
            final(self).system_update_id == next_update_id(old(self).system_update_id),
            final(self).uuid == old(self).uuid,
            final(self).renderers == old(self).renderers,
            final(self).default_renderer == old(self).default_renderer,
            final(self).registry == old(self).registry,
            final(self).content_dir == old(self).content_dir,
    {
        let key = item.id.clone();
        self.library.insert(key, item);
        self.system_update_id = bump(self.system_update_id);
    }

    /// Removes the item with ID `id`; counts the change if there was one.
    pub fn remove_item(&mut self, id: &str)
        ensures
            final(self).library.as_map() == old(self).library.as_map().remove(id@),
            final(self).system_update_id == (if old(self).library.as_map().contains_key(id@) {
                next_update_id(old(self).system_update_id)
            } else {
                old(self).system_update_id
            }),
            final(self).uuid == old(self).uuid,
            final(self).renderers == old(self).renderers,
            final(self).default_renderer == old(self).default_renderer,
            final(self).registry == old(self).registry,
            final(self).content_dir == old(self).content_dir,
    {
        if self.library.remove(id).is_some() {
            self.system_update_id = bump(self.system_update_id);
        }
    }
}

/// The update counter after one change.
fn bump(n: u32) -> (r: u32)
    ensures
        r == next_update_id(n),
{
    n.wrapping_add(1)
}

/// An added item is in the library under its ID until it is removed; removing
/// it leaves the library as it was without that ID. Each change advances the
/// update counter by one.
pub proof fn lemma_add_then_remove(s0: AppState, s1: AppState, s2: AppState, item: MediaItem)
    requires
        s1.library.as_map() == s0.library.as_map().insert(item.id@, item),
        s1.system_update_id == next_update_id(s0.system_update_id),
        s2.library.as_map() == s1.library.as_map().remove(item.id@),
        s2.system_update_id == (if s1.library.as_map().contains_key(item.id@) {
            next_update_id(s1.system_update_id)
        } else {
            s1.system_update_id
        }),
    ensures
        s1.library.as_map().contains_key(item.id@),
        s1.library.as_map()[item.id@] == item,
        !s2.library.as_map().contains_key(item.id@),
        s2.library.as_map() == s0.library.as_map().remove(item.id@),
        s2.system_update_id == next_update_id(next_update_id(s0.system_update_id)),
{
    assert(s2.library.as_map() =~= s0.library.as_map().remove(item.id@));
}

} // verus!
