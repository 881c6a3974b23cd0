//! Queues that carry results from the platform bridge and background work to
//! the editor, which drains them once per frame.

use vstd::prelude::*;
use std::collections::HashMap;

verus! {

/// One experience of a group, as listed by the browse tab.
pub struct GroupUniverse {
    pub id: u64,
    pub name: String,
    pub description: String,
    pub player_count: Option<u64>,
    pub root_place_id: Option<u64>,
}

/// Something the platform side or a background job reports to the editor.
pub enum FileEvent {
    /// A place file was picked and read.
    Opened { uri: String, data: Vec<u8> },
    /// A local model file was picked for insertion into the open place.
    ModelOpened { uri: String, data: Vec<u8> },
    /// A place downloaded by id is ready to open.
    PlaceBytes { uri: String, data: Vec<u8> },
    /// Downloading a place failed.
    PlaceError { uri: String, error: String },
    /// A publish finished.
    PublishResult { uri: String, result: Result<(), String> },
    /// A group's experiences and their thumbnail URLs arrived.
    GroupUniverses {
        group_id: u64,
        universes: Vec<GroupUniverse>,
        thumbs: HashMap<u64, String>,
    },
    /// The places of an experience arrived, as (place id, name).
    UniversePlaces { universe_id: u64, places: Vec<(u64, String)> },
    /// A browse request failed.
    BrowseError { message: String },
    /// The file picker was dismissed.
    OpenCancelled,
    /// A new document was created for saving.
    Created { uri: String },
    /// A save finished, successfully or not.
    SaveComplete(bool),
    /// An external editor handed back the text of a script.
    ExternalEditReturned { script_id: u64, text: String },
}

/// A finished plugin download, or why it failed.
pub struct PluginInstall {
    pub name_hint: String,
    pub result: Result<Vec<u8>, String>,
}

/// A first-in, first-out queue of pending messages.
pub struct EventQueue<T> {
    pending: Vec<T>,
}

impl<T> View for EventQueue<T> {
    type V = Seq<T>;

    /// The pending messages, oldest first.
    closed spec fn view(&self) -> Seq<T> {
        self.pending@
    }
}

impl<T> EventQueue<T> {
    /// An empty queue.
    pub fn new() -> (q: Self)
        ensures
            q@ == Seq::<T>::empty(),
    {
        EventQueue { pending: Vec::new() }
    }

    /// Adds `msg` behind every pending message.
    pub fn send(&mut self, msg: T)
        ensures
            final(self)@ == old(self)@.push(msg),
    {
        self.pending.push(msg);
    }

    /// Removes and returns every pending message, oldest first.
    pub fn drain_all(&mut self) -> (out: Vec<T>)
        ensures
            out@ == old(self)@,
            final(self)@ == Seq::<T>::empty(),
    {
        let mut out: Vec<T> = Vec::new();
        std::mem::swap(&mut out, &mut self.pending);
        out
    }

    /// Number of pending messages.
    pub fn len(&self) -> (n: usize)
        ensures
            n == self@.len(),
    {
        self.pending.len()
    }
}

/// A fresh, empty queue for file events.
pub fn channel() -> (q: EventQueue<FileEvent>)
    ensures
        q@ == Seq::<FileEvent>::empty(),
{
    EventQueue::new()
}

/// A fresh, empty queue for plugin downloads.
pub fn plugin_channel() -> (q: EventQueue<PluginInstall>)
    ensures
        q@ == Seq::<PluginInstall>::empty(),
{
    EventQueue::new()
}

/// Drains every pending file event, oldest first.
pub fn try_recv_all(q: &mut EventQueue<FileEvent>) -> (out: Vec<FileEvent>)
    ensures
        out@ == old(q)@,
        final(q)@ == Seq::<FileEvent>::empty(),
{
    q.drain_all()
}

/// Drains every pending plugin download, oldest first.
pub fn try_recv_plugins(q: &mut EventQueue<PluginInstall>) -> (out: Vec<PluginInstall>)
    ensures
        out@ == old(q)@,
        final(q)@ == Seq::<PluginInstall>::empty(),
{
    q.drain_all()
}

/// Reports a downloaded place, to be opened like a picked file.
pub fn queue_open_place_bytes(q: &mut EventQueue<FileEvent>, uri: String, data: Vec<u8>)
    ensures
        final(q)@ == old(q)@.push(FileEvent::PlaceBytes { uri, data }),
{
    q.send(FileEvent::PlaceBytes { uri, data });
}

/// Reports a failed place download.
pub fn queue_open_place_error(q: &mut EventQueue<FileEvent>, uri: String, error: String)
    ensures
        final(q)@ == old(q)@.push(FileEvent::PlaceError { uri, error }),
{
    q.send(FileEvent::PlaceError { uri, error });
}

/// Reports the outcome of a publish.
pub fn queue_publish_result(q: &mut EventQueue<FileEvent>, uri: String, result: Result<(), String>)
    ensures
        final(q)@ == old(q)@.push(FileEvent::PublishResult { uri, result }),
{
    q.send(FileEvent::PublishResult { uri, result });
}

/// Reports a group's experiences and their thumbnails.
pub fn queue_group_universes(
    q: &mut EventQueue<FileEvent>,
    group_id: u64,
    universes: Vec<GroupUniverse>,
    thumbs: HashMap<u64, String>,
)
    ensures
        final(q)@ == old(q)@.push(FileEvent::GroupUniverses { group_id, universes, thumbs }),
{
    q.send(FileEvent::GroupUniverses { group_id, universes, thumbs });
}

/// Reports the places of an experience.
pub fn queue_universe_places(
    q: &mut EventQueue<FileEvent>,
    universe_id: u64,
    places: Vec<(u64, String)>,
)
    ensures
        final(q)@ == old(q)@.push(FileEvent::UniversePlaces { universe_id, places }),
{
    q.send(FileEvent::UniversePlaces { universe_id, places });
}

/// Reports a failed browse request.
pub fn queue_browse_error(q: &mut EventQueue<FileEvent>, message: String)
    ensures
        final(q)@ == old(q)@.push(FileEvent::BrowseError { message }),
{
    q.send(FileEvent::BrowseError { message });
}

/// Reports a downloaded plugin.
pub fn queue_plugin_bytes(q: &mut EventQueue<PluginInstall>, name_hint: String, data: Vec<u8>)
    ensures
        final(q)@ == old(q)@.push(PluginInstall { name_hint, result: Ok(data) }),
{
    q.send(PluginInstall { name_hint, result: Ok(data) });
}

/// Reports a failed plugin download.
pub fn queue_plugin_error(q: &mut EventQueue<PluginInstall>, name_hint: String, err: String)
    ensures
        final(q)@ == old(q)@.push(PluginInstall { name_hint, result: Err(err) }),
{
    q.send(PluginInstall { name_hint, result: Err(err) });
}

/// Whether the next model picked should be installed as a plugin rather
/// than inserted into the place.
pub struct PickerFlag {
    pub next_is_plugin: bool,
}

/// A flag that is initially clear.
pub fn next_is_plugin_flag() -> (f: PickerFlag)
    ensures
        !f.next_is_plugin,
{
    PickerFlag { next_is_plugin: false }
}

/// Marks the next picked model as a plugin install (the caller then opens
/// the model picker).
pub fn trigger_open_model_for_plugin(flag: &mut PickerFlag)
    ensures
        final(flag).next_is_plugin,
{
    flag.next_is_plugin = true;
}

/// Reads the flag and clears it.
pub fn take_next_is_plugin(flag: &mut PickerFlag) -> (b: bool)
    ensures
        b == old(flag).next_is_plugin,
        !final(flag).next_is_plugin,
{
    let b = flag.next_is_plugin;
    flag.next_is_plugin = false;
    b
}

} // verus!
