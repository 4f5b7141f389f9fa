//! The window registry the windowing plugin keeps as resources: the open windows
//! by identifier, the main window, and the configured windows to open.

use std::collections::HashMap;
use vstd::prelude::*;
use vstd::std_specs::iter::IteratorSpec;

verus! {

broadcast use vstd::std_specs::hash::group_hash_axioms;

/// The identifier of a window, as the windowing system numbers it.
#[derive(Clone, Copy, PartialEq, Eq, Structural, Debug, Hash)]
pub struct WindowId {
    pub id: u64,
}

/// The open windows, each handle of type `W` under its identifier, and which one
/// is the main window: the first one added, until it is removed.
#[derive(Clone)]
pub struct Windows<W> {
    windows: HashMap<u64, W>,
    main_window: Option<WindowId>,
}

impl<W> Windows<W> {
    pub closed spec fn open(&self) -> Map<u64, W> {
        self.windows@
    }

    pub closed spec fn main_id(&self) -> Option<WindowId> {
        self.main_window
    }

    pub fn new() -> (r: Windows<W>)
        ensures
            r.open() == Map::<u64, W>::empty(),
            r.main_id() is None,
    {
        Windows { windows: HashMap::new(), main_window: None }
    }

    /// Adds (or replaces) the window `id`; it becomes the main window when there
    /// is none.
    pub fn add_window(&mut self, id: WindowId, window: W)
        ensures
            final(self).open() == old(self).open().insert(id.id, window),
            final(self).main_id() == if old(self).main_id() is None {
                Some(id)
            } else {
                old(self).main_id()
            },
    {
        self.windows.insert(id.id, window);
        if self.main_window.is_none() {
            self.main_window = Some(id);
        }
    }

    pub fn get_window(&self, id: WindowId) -> (r: Option<&W>)
        ensures
            match r {
                Some(w) => self.open().contains_key(id.id) && *w == self.open()[id.id],
                None => !self.open().contains_key(id.id),
            },
    {
        self.windows.get(&id.id)
    }

    /// Removes the window `id`; the main window is forgotten when it is the one
    /// removed.
    pub fn remove_window(&mut self, id: WindowId) -> (r: Option<W>)
        ensures
            final(self).open() == old(self).open().remove(id.id),
            match r {
                Some(w) => old(self).open().contains_key(id.id) && w == old(self).open()[id.id],
                None => !old(self).open().contains_key(id.id),
            },
            final(self).main_id() == if old(self).open().contains_key(id.id) && old(self).main_id()
                == Some(id) {
                None
            } else {
                old(self).main_id()
            },
    {
        match self.windows.remove(&id.id) {
            Some(window) => {
                let is_main = match self.main_window {
                    Some(m) => m.id == id.id,
                    None => false,
                };
                if is_main {
                    self.main_window = None;
                }
                Some(window)
            },
            None => None,
        }
    }

    /// The main window, which must be open.
    pub fn main_window(&self) -> (r: &W)
        requires
            self.main_id() is Some,
            self.open().contains_key(self.main_id()->Some_0.id),
        ensures
            *r == self.open()[self.main_id()->Some_0.id],
    {
        let id = self.main_window.unwrap();
        self.windows.get(&id.id).unwrap()
    }

    /// The main window, when there is one and it is open.
    pub fn try_get_main_window(&self) -> (r: Option<&W>)
        ensures
            match r {
                Some(w) => self.main_id() is Some && self.open().contains_key(self.main_id()->Some_0.id)
                    && *w == self.open()[self.main_id()->Some_0.id],
                None => self.main_id() is None || !self.open().contains_key(self.main_id()->Some_0.id),
            },
    {
        match self.main_window {
            Some(id) => self.windows.get(&id.id),
            None => None,
        }
    }

    /// The identifiers of the open windows, each once.
    pub fn ids(&self) -> (r: Vec<WindowId>)
        ensures
            forall|i: int| 0 <= i < r@.len() ==> self.open().contains_key(#[trigger] r@[i].id),
            forall|k: u64|
                self.open().contains_key(k) ==> exists|i: int| 0 <= i < r@.len() && #[trigger] r@[i].id == k,
    {
        let ghost all = self.windows.keys().remaining().unref();
        proof {
            assert(all.to_set() == self.open().dom());
        }
        let mut out: Vec<WindowId> = Vec::new();
        for k in it: self.windows.keys()
            invariant
                it.seq().unref() == all,
                out@.len() == it.index(),
                forall|i: int| 0 <= i < out@.len() ==> #[trigger] out@[i].id == all[i],
        {
            out.push(WindowId { id: *k });
        }
        proof {
            assert forall|i: int| 0 <= i < out@.len() implies self.open().contains_key(#[trigger] out@[i].id) by {
                assert(all.to_set().contains(all[i]));
            }
            assert forall|k: u64| self.open().contains_key(k) implies exists|i: int| 0 <= i < out@.len() && #[trigger] out@[i].id == k by {
                assert(all.to_set().contains(k));
                let i = choose|i: int| 0 <= i < all.len() && all[i] == k;
                assert(out@[i].id == all[i]);
            }
        }
        out
    }

    /// Closes every open window that no configuration was opened as.
    pub fn retain_configured(&mut self, configs: &WindowConfigs)
        ensures
            forall|k: u64|
                #[trigger] final(self).open().contains_key(k) <==> (old(self).open().contains_key(k)
                    && configured(configs.window_configs@, k)),
            forall|k: u64| #[trigger]
                final(self).open().contains_key(k) ==> final(self).open()[k] == old(self).open()[k],
    {
        let ids = self.ids();
        let ghost before = self.open();
        let mut i: usize = 0;
        while i < ids.len()
            invariant
                i <= ids@.len(),
                forall|j: int| 0 <= j < ids@.len() ==> before.contains_key(#[trigger] ids@[j].id),
                forall|k: u64| before.contains_key(k) ==> exists|j: int| 0 <= j < ids@.len() && #[trigger] ids@[j].id == k,
                forall|k: u64|
                    #[trigger] self.open().contains_key(k) <==> (before.contains_key(k) && (configured(
                        configs.window_configs@,
                        k,
                    ) || !(exists|j: int| 0 <= j < i && #[trigger] ids@[j].id == k))),
                forall|k: u64| #[trigger] self.open().contains_key(k) ==> self.open()[k] == before[k],
            decreases ids@.len() - i,
        {
            let id = ids[i];
            if !configs.is_configured(id) {
                let _ = self.remove_window(id);
            }
            proof {
                assert forall|k: u64| #[trigger] self.open().contains_key(k) <==> (before.contains_key(k) && (configured(
                        configs.window_configs@,
                        k,
                    ) || !(exists|j: int| 0 <= j < i + 1 && #[trigger] ids@[j].id == k))) by {
                    if exists|j: int| 0 <= j < i + 1 && #[trigger] ids@[j].id == k {
                        if !(exists|j: int| 0 <= j < i && #[trigger] ids@[j].id == k) {
                            assert(ids@[i as int].id == k);
                        }
                    }
                    if k == id.id {
                        assert(ids@[i as int].id == k);
                    }
                }
            }
            i = i + 1;
        }
        proof {
            assert forall|k: u64| #[trigger] self.open().contains_key(k) <==> (before.contains_key(k) && configured(configs.window_configs@, k)) by {
                if before.contains_key(k) {
                    let j = choose|j: int| 0 <= j < ids@.len() && #[trigger] ids@[j].id == k;
                    assert(0 <= j < i);
                }
            }
        }
    }

    pub fn is_empty(&self) -> (r: bool)
        ensures
            r == (self.open().len() == 0),
    {
        self.windows.is_empty()
    }

    /// Forgets every window, the main one included.
    pub fn clear(&mut self)
        ensures
            final(self).open() == Map::<u64, W>::empty(),
            final(self).main_id() is None,
    {
        self.windows.clear();
        self.main_window = None;
    }
}

/// Whether one of `configs` was opened as the window keyed `k`.
pub open spec fn configured(configs: Seq<WindowConfig>, k: u64) -> bool {
    exists|i: int| 0 <= i < configs.len() && #[trigger] configs[i].window_id == Some(WindowId { id: k })
}

/// How to open one window.
#[derive(Clone)]
pub struct WindowConfig {
    pub title: String,
    pub width: u32,
    pub height: u32,
    pub resizable: bool,
    pub fullscreen: bool,
    /// The window opened for this configuration, once there is one.
    pub window_id: Option<WindowId>,
}

impl WindowConfig {
    /// A resizable, windowed configuration not yet opened.
    pub fn new(title: String, width: u32, height: u32) -> (r: WindowConfig)
        ensures
            r.title@ == title@,
            r.width == width,
            r.height == height,
            r.resizable,
            !r.fullscreen,
            r.window_id is None,
    {
        WindowConfig { title, width, height, resizable: true, fullscreen: false, window_id: None }
    }
}

impl Default for WindowConfig {
    fn default() -> (r: WindowConfig)
        ensures
            r.title@ == "Window"@,
            r.width == 800,
            r.height == 600,
            r.resizable,
            !r.fullscreen,
            r.window_id is None,
    {
        WindowConfig::new("Window".to_owned(), 800, 600)
    }
}

/// The windows to open.
#[derive(Clone)]
pub struct WindowConfigs {
    pub window_configs: Vec<WindowConfig>,
}

impl WindowConfigs {
    /// Whether some configuration was opened as the window `id`.
    pub fn is_configured(&self, id: WindowId) -> (r: bool)
        ensures
            r == configured(self.window_configs@, id.id),
    {
        let mut i: usize = 0;
        while i < self.window_configs.len()
            invariant
                i <= self.window_configs@.len(),
                forall|j: int| 0 <= j < i ==> #[trigger] self.window_configs@[j].window_id != Some(id),
            decreases self.window_configs@.len() - i,
        {
            let found = match self.window_configs[i].window_id {
                Some(w) => w.id == id.id,
                None => false,
            };
            if found {
                return true;
            }
            i = i + 1;
        }
        false
    }

    pub fn new() -> (r: WindowConfigs)
        ensures
            r.window_configs@.len() == 0,
    {
        WindowConfigs { window_configs: Vec::new() }
    }

    /// These configurations and one more at the back.
    pub fn add_window(self, title: String, width: u32, height: u32) -> (r: WindowConfigs)
        ensures
            r.window_configs@.len() == self.window_configs@.len() + 1,
            forall|i: int|
                0 <= i < self.window_configs@.len() ==> r.window_configs@[i]
                    == self.window_configs@[i],
            r.window_configs@.last().title@ == title@,
            r.window_configs@.last().width == width,
            r.window_configs@.last().height == height,
            r.window_configs@.last().resizable,
            !r.window_configs@.last().fullscreen,
            r.window_configs@.last().window_id is None,
    {
        let mut configs = self;
        configs.window_configs.push(WindowConfig::new(title, width, height));
        configs
    }
}

/// The windowing plugin's settings: the windows to open when the application
/// resumes.
pub struct WindowPlugin {
    windows: WindowConfigs,
}

impl WindowPlugin {
    pub closed spec fn spec_configs(&self) -> Seq<WindowConfig> {
        self.windows.window_configs@
    }

    /// One window with the given title and size.
    pub fn new(title: &str, width: u32, height: u32) -> (r: WindowPlugin)
        ensures
            r.spec_configs().len() == 1,
            r.spec_configs()[0].title@ == title@,
            r.spec_configs()[0].width == width,
            r.spec_configs()[0].height == height,
            r.spec_configs()[0].resizable,
            !r.spec_configs()[0].fullscreen,
            r.spec_configs()[0].window_id is None,
    {
        let mut configs: Vec<WindowConfig> = Vec::new();
        configs.push(WindowConfig::new(title.to_owned(), width, height));
        WindowPlugin { windows: WindowConfigs { window_configs: configs } }
    }

    /// The given windows.
    pub fn new_many(configs: Vec<WindowConfig>) -> (r: WindowPlugin)
        ensures
            r.spec_configs() == configs@,
    {
        WindowPlugin { windows: WindowConfigs { window_configs: configs } }
    }

    pub fn configs(&self) -> (r: &WindowConfigs)
        ensures
            r.window_configs@ == self.spec_configs(),
    {
        &self.windows
    }
}

/// Published when a window opens.
pub struct WindowCreatedEvent<W> {
    pub window: W,
}

impl<W> WindowCreatedEvent<W> {
    pub fn new(window: W) -> (r: WindowCreatedEvent<W>)
        ensures
            r.window == window,
    {
        WindowCreatedEvent { window }
    }
}

/// Published when a window closes.
#[derive(Clone, Copy, PartialEq, Eq, Structural, Debug)]
pub struct WindowClosedEvent {
    pub window_id: WindowId,
}

impl WindowClosedEvent {
    pub fn new(window_id: WindowId) -> (r: WindowClosedEvent)
        ensures
            r.window_id == window_id,
    {
        WindowClosedEvent { window_id }
    }
}

} // verus!
