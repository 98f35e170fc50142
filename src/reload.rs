//! The reload watcher's decisions. Watching the file, debouncing and
//! reading it are the caller's part; this says what each event does.
use vstd::prelude::*;
use crate::kv::MicroKV;
use crate::namespace::same_settings;
use crate::registry::Registry;
use crate::shared::SharedMicroKV;
use crate::store::value_of;

verus! {

/// How long the backing file must stay quiet before a change is handled.
pub const DEBOUNCE_SECS: u64 = 2;

/// What the watcher saw.
pub enum WatchEvent {
    /// The file was written; the registry read from it, or `None` where it
    /// could not be read.
    Written(Option<Registry>),
    /// Anything else.
    Other,
}

/// Reloads a store when its backing file changes under it.
pub struct WatchAndReload;

impl WatchAndReload {
    /// Handles one debounced event: a write that could be read replaces the
    /// namespaces by those on disk; anything else leaves the store as it
    /// was. Returns whether the store was reloaded.
    pub fn on_event(kv: &mut MicroKV, event: WatchEvent) -> (r: bool)
        requires
            old(kv).wf(),
            event matches WatchEvent::Written(Some(d)) ==> d.wf(),
        ensures
            final(kv).wf(),
            same_settings(*old(kv), *final(kv)),
            match event {
                WatchEvent::Written(Some(d)) => r && forall|n: Seq<char>|
                    #[trigger] value_of(final(kv).spaces(), n) == value_of(d@, n),
                _ => !r && *final(kv) == *old(kv),
            },
    {
        match event {
            WatchEvent::Written(Some(disk)) => {
                kv.reload(disk);
                true
            },
            _ => false,
        }
    }

    /// Handles one debounced event on a shared store: a write that could be
    /// read replaces the namespaces by those on disk. Returns whether the
    /// store was reloaded.
    pub fn on_shared_event(kv: &SharedMicroKV, event: WatchEvent) -> (r: bool)
        requires
            event matches WatchEvent::Written(Some(d)) ==> d.wf(),
        ensures
            r <==> event matches WatchEvent::Written(Some(_)),
    {
        match event {
            WatchEvent::Written(Some(disk)) => {
                kv.reload(disk);
                true
            },
            _ => false,
        }
    }
}

} // verus!
