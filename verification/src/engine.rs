//! The streaming engine: what is asked of it and what it reports.

use vstd::prelude::*;

use crate::home::{below, Location};

pub mod auth;

verus! {

/// A normalized playback event surfaced to the rest of the app.
#[derive(Debug, Clone)]
pub enum EngineEvent {
    /// A new track became current. This is the reactive theme trigger.
    TrackChanged { uri: String },
    Playing { uri: String, position_ms: u32 },
    Paused { uri: String, position_ms: u32 },
    Stopped,
    EndOfTrack { uri: String },
    PositionCorrection { uri: String, position_ms: u32 },
}

/// What the player reports. `uri` is the address of the track, where it has one.
#[derive(Debug)]
pub enum PlayerEvent {
    TrackChanged { uri: Option<String> },
    Playing { uri: Option<String>, position_ms: u32 },
    Paused { uri: Option<String>, position_ms: u32 },
    Stopped,
    PositionChanged { uri: Option<String>, position_ms: u32 },
    PositionCorrection { uri: Option<String>, position_ms: u32 },
    EndOfTrack { uri: Option<String> },
    /// Any other event.
    Other,
}

/// The event that a player's event stands for, if it is one that the app follows and its track
/// has an address.
pub open spec fn mapped(event: PlayerEvent) -> Option<EngineEvent> {
    match event {
        PlayerEvent::TrackChanged { uri: Some(uri) } => Some(EngineEvent::TrackChanged { uri }),
        PlayerEvent::Playing { uri: Some(uri), position_ms } => Some(
            EngineEvent::Playing { uri, position_ms },
        ),
        PlayerEvent::Paused { uri: Some(uri), position_ms } => Some(
            EngineEvent::Paused { uri, position_ms },
        ),
        PlayerEvent::Stopped => Some(EngineEvent::Stopped),
        PlayerEvent::PositionChanged { uri: Some(uri), position_ms } => Some(
            EngineEvent::PositionCorrection { uri, position_ms },
        ),
        PlayerEvent::PositionCorrection { uri: Some(uri), position_ms } => Some(
            EngineEvent::PositionCorrection { uri, position_ms },
        ),
        PlayerEvent::EndOfTrack { uri: Some(uri) } => Some(EngineEvent::EndOfTrack { uri }),
        _ => None,
    }
}

/// Whether audio flows after a player's event, where the event tells.
pub open spec fn flowing(event: PlayerEvent) -> Option<bool> {
    match event {
        PlayerEvent::Playing { .. } => Some(true),
        PlayerEvent::Paused { .. } => Some(false),
        PlayerEvent::Stopped => Some(false),
        _ => None,
    }
}

/// Whether the visualizer is on after a run of the player's events, of which each that tells
/// whether audio flows switches it.
pub open spec fn active_after(before: bool, events: Seq<PlayerEvent>) -> bool
    decreases events.len(),
{
    if events.len() == 0 {
        before
    } else {
        match flowing(events.last()) {
            Some(active) => active,
            None => active_after(before, events.drop_last()),
        }
    }
}

/// What a run of the player's events reports to the app: the mapped events, in order.
pub open spec fn reported(events: Seq<PlayerEvent>) -> Seq<EngineEvent>
    decreases events.len(),
{
    if events.len() == 0 {
        seq![]
    } else {
        match mapped(events.last()) {
            Some(event) => reported(events.drop_last()).push(event),
            None => reported(events.drop_last()),
        }
    }
}

/// The bridge from the player to the app.
pub struct Bridge {
    /// Whether the visualizer is on.
    pub active: bool,
    /// The events handed to the app's channel, the last of which failed if the bridge is not open.
    pub sent: Seq<EngineEvent>,
    /// Whether the bridge still handles events.
    pub open: bool,
}

impl Bridge {
    /// The bridge after one more event, where `delivers` says whether the channel takes what the
    /// event reports. The first failure closes the bridge, and a closed one handles nothing.
    pub open spec fn after(self, event: PlayerEvent, delivers: bool) -> Bridge {
        if !self.open {
            self
        } else {
            Bridge {
                active: match flowing(event) {
                    Some(active) => active,
                    None => self.active,
                },
                sent: match mapped(event) {
                    Some(report) => self.sent.push(report),
                    None => self.sent,
                },
                open: mapped(event) is None || delivers,
            }
        }
    }
}

/// The bridge after a run of events, where `delivers` says of each event whether the channel takes
/// what it reports.
pub open spec fn bridged(before: bool, events: Seq<PlayerEvent>, delivers: Seq<bool>) -> Bridge
    decreases events.len(),
{
    if events.len() == 0 {
        Bridge { active: before, sent: seq![], open: true }
    } else {
        bridged(before, events.drop_last(), delivers).after(
            events.last(),
            delivers[events.len() - 1],
        )
    }
}

/// Translate a player's event into the app's.
pub fn map_event(event: PlayerEvent) -> (mapped_event: Option<EngineEvent>)
    ensures
        mapped_event == mapped(event),
{
    match event {
        PlayerEvent::TrackChanged { uri } => match uri {
            Some(uri) => Some(EngineEvent::TrackChanged { uri }),
            None => None,
        },
        PlayerEvent::Playing { uri, position_ms } => match uri {
            Some(uri) => Some(EngineEvent::Playing { uri, position_ms }),
            None => None,
        },
        PlayerEvent::Paused { uri, position_ms } => match uri {
            Some(uri) => Some(EngineEvent::Paused { uri, position_ms }),
            None => None,
        },
        PlayerEvent::Stopped => Some(EngineEvent::Stopped),
        PlayerEvent::PositionChanged { uri, position_ms } => match uri {
            Some(uri) => Some(EngineEvent::PositionCorrection { uri, position_ms }),
            None => None,
        },
        PlayerEvent::PositionCorrection { uri, position_ms } => match uri {
            Some(uri) => Some(EngineEvent::PositionCorrection { uri, position_ms }),
            None => None,
        },
        PlayerEvent::EndOfTrack { uri } => match uri {
            Some(uri) => Some(EngineEvent::EndOfTrack { uri }),
            None => None,
        },
        PlayerEvent::Other => None,
    }
}

/// Whether audio flows after a player's event, where the event tells: what switches the
/// visualizer on and off.
pub fn activity(event: &PlayerEvent) -> (active: Option<bool>)
    ensures
        active == flowing(*event),
{
    match event {
        PlayerEvent::Playing { .. } => Some(true),
        PlayerEvent::Paused { .. } => Some(false),
        PlayerEvent::Stopped => Some(false),
        _ => None,
    }
}

/// Handle one event of the player: switch the visualizer where the event tells, and send what it
/// reports. Whether to go on: not after a send that failed, since nobody listens any more.
///
/// `switch` and `send` are called at most once, and only where there is something to switch or to
/// send.
pub fn forward<A: FnOnce(bool), S: FnOnce(EngineEvent) -> bool>(
    event: PlayerEvent,
    switch: A,
    send: S,
) -> (go_on: bool)
    requires
        flowing(event) matches Some(active) ==> switch.requires((active,)),
        mapped(event) matches Some(report) ==> send.requires((report,)),
    ensures
        flowing(event) matches Some(active) ==> switch.ensures((active,), ()),
        mapped(event) matches Some(report) ==> send.ensures((report,), go_on),
        mapped(event) is None ==> go_on,
        forall|bridge: Bridge|
            bridge.open ==> (#[trigger] bridge.after(event, go_on)).open == go_on,
{
    if let Some(active) = activity(&event) {
        switch(active);
    }
    match map_event(event) {
        Some(report) => send(report),
        None => true,
    }
}

/// One more event appends what it stands for to what is reported, and nothing else.
pub proof fn next_event_is_reported(events: Seq<PlayerEvent>, event: PlayerEvent)
    ensures
        reported(events.push(event)) == match mapped(event) {
            Some(report) => reported(events).push(report),
            None => reported(events),
        },
{
    assert(events.push(event).drop_last() =~= events);
}

/// Reports keep the order of the events: what a run reports is what its first part reports, then
/// what the rest reports.
pub proof fn reports_keep_their_order(first: Seq<PlayerEvent>, rest: Seq<PlayerEvent>)
    ensures
        reported(first + rest) == reported(first) + reported(rest),
    decreases rest.len(),
{
    if rest.len() == 0 {
        assert(first + rest =~= first);
        assert(reported(first) + reported(rest) =~= reported(first));
    } else {
        reports_keep_their_order(first, rest.drop_last());
        assert((first + rest).drop_last() =~= first + rest.drop_last());
        assert(reported(first + rest) =~= reported(first) + reported(rest));
    }
}

/// While the app listens, everything that a run reports is sent, in order, with nothing lost and
/// nothing doubled, and every event switches the visualizer as it tells.
pub proof fn listening_app_gets_every_report(
    before: bool,
    events: Seq<PlayerEvent>,
    delivers: Seq<bool>,
)
    requires
        events.len() <= delivers.len(),
        forall|i: int|
            0 <= i < events.len() && mapped(#[trigger] events[i]) is Some ==> delivers[i],
    ensures
        bridged(before, events, delivers) == (Bridge {
            active: active_after(before, events),
            sent: reported(events),
            open: true,
        }),
    decreases events.len(),
{
    if events.len() > 0 {
        let shorter = events.drop_last();
        assert forall|i: int|
            0 <= i < shorter.len() && mapped(#[trigger] shorter[i]) is Some implies delivers[i] by {
            assert(shorter[i] == events[i]);
        }
        listening_app_gets_every_report(before, shorter, delivers);
        assert(events[events.len() - 1] == events.last());
    }
}

/// Nothing is sent after a send that failed: the bridge stays as the event of the first failure
/// left it, with the report of that event as the last that was tried.
pub proof fn nothing_follows_a_failed_send(
    before: bool,
    events: Seq<PlayerEvent>,
    delivers: Seq<bool>,
    at: int,
)
    requires
        events.len() <= delivers.len(),
        0 <= at < events.len(),
        mapped(events[at]) is Some,
        !delivers[at],
        forall|i: int| 0 <= i < at && mapped(#[trigger] events[i]) is Some ==> delivers[i],
    ensures
        bridged(before, events, delivers) == (Bridge {
            active: active_after(before, events.take(at + 1)),
            sent: reported(events.take(at)).push(mapped(events[at])->0),
            open: false,
        }),
    decreases events.len(),
{
    let shorter = events.drop_last();
    if at < events.len() - 1 {
        assert(shorter[at] == events[at]);
        assert forall|i: int|
            0 <= i < at && mapped(#[trigger] shorter[i]) is Some implies delivers[i] by {
            assert(shorter[i] == events[i]);
        }
        nothing_follows_a_failed_send(before, shorter, delivers, at);
        assert(shorter.take(at) =~= events.take(at));
        assert(shorter.take(at + 1) =~= events.take(at + 1));
    } else {
        assert forall|i: int|
            0 <= i < shorter.len() && mapped(#[trigger] shorter[i]) is Some implies delivers[i] by {
            assert(shorter[i] == events[i]);
        }
        listening_app_gets_every_report(before, shorter, delivers);
        assert(events.take(at) =~= shorter);
        assert(events.take(at + 1) =~= events);
    }
}

/// A track change reaches the app exactly when the player reports one whose track has an
/// address, and carries that address.
pub proof fn track_change_is_reported(event: PlayerEvent, uri: String)
    ensures
        mapped(event) == Some(EngineEvent::TrackChanged { uri }) <==> event
            == (PlayerEvent::TrackChanged { uri: Some(uri) }),
{
}

/// The app never sees playing without the visualizer on, nor paused or stopped without it off.
pub proof fn visualizer_agrees_with_playback(event: PlayerEvent)
    ensures
        mapped(event) matches Some(EngineEvent::Playing { .. }) ==> flowing(event) == Some(true),
        mapped(event) matches Some(EngineEvent::Paused { .. }) ==> flowing(event) == Some(false),
        mapped(event) matches Some(EngineEvent::Stopped) ==> flowing(event) == Some(false),
{
}

/// After a run of events the visualizer is as the last of them that is playing, paused or stopped
/// left it, whatever came before it.
pub proof fn last_telling_event_decides(before: bool, events: Seq<PlayerEvent>, at: int)
    requires
        0 <= at < events.len(),
        flowing(events[at]) is Some,
        forall|i: int| at < i < events.len() ==> flowing(#[trigger] events[i]) is None,
    ensures
        active_after(before, events) == flowing(events[at])->0,
        active_after(before, events) <==> events[at] is Playing,
    decreases events.len(),
{
    if at < events.len() - 1 {
        last_telling_event_decides(before, events.drop_last(), at);
    }
}

/// A run of events without playing, paused and stopped leaves the visualizer as it was.
pub proof fn silent_events_leave_the_visualizer(before: bool, events: Seq<PlayerEvent>)
    requires
        forall|i: int| 0 <= i < events.len() ==> flowing(#[trigger] events[i]) is None,
    ensures
        active_after(before, events) == before,
    decreases events.len(),
{
    if events.len() > 0 {
        silent_events_leave_the_visualizer(before, events.drop_last());
    }
}

/// One more event switches the visualizer as it tells, also where the app does not see it since
/// its track has no address; changes of the track, its end and positions never switch it.
pub proof fn next_event_switches_the_visualizer(
    before: bool,
    events: Seq<PlayerEvent>,
    event: PlayerEvent,
)
    ensures
        active_after(before, events.push(event)) == match event {
            PlayerEvent::Playing { .. } => true,
            PlayerEvent::Paused { .. } => false,
            PlayerEvent::Stopped => false,
            _ => active_after(before, events),
        },
{
    assert(events.push(event).drop_last() =~= events);
}

/// What to play.
#[derive(Debug)]
pub enum Context {
    /// A playlist, album, artist or track.
    Uri(String),
    /// An explicit list of tracks.
    Tracks(Vec<String>),
}

/// A request to load and play something.
#[derive(Debug)]
pub struct LoadRequest {
    pub context: Context,
    /// Whether to start at once.
    pub start_playing: bool,
    /// The position in the first track, in milliseconds.
    pub seek_to: u32,
    /// Whether the whole context is shuffled.
    pub shuffle: bool,
    /// The track to begin with.
    pub playing_track: Option<String>,
}

/// Start playing a context (playlist / album / artist / track). When `shuffle` is set, the
/// *entire* context is shuffled.
pub fn play_context(context_uri: String, shuffle: bool) -> (request: LoadRequest)
    ensures
        request == (LoadRequest {
            context: Context::Uri(context_uri),
            start_playing: true,
            seek_to: 0,
            shuffle,
            playing_track: None,
        }),
{
    LoadRequest {
        context: Context::Uri(context_uri),
        start_playing: true,
        seek_to: 0,
        shuffle,
        playing_track: None,
    }
}

/// Load a context and start at a specific track and position.
pub fn play_context_at(
    context_uri: String,
    track_uri: Option<String>,
    position_ms: u32,
    shuffle: bool,
) -> (request: LoadRequest)
    ensures
        request == (LoadRequest {
            context: Context::Uri(context_uri),
            start_playing: true,
            seek_to: position_ms,
            shuffle,
            playing_track: track_uri,
        }),
{
    LoadRequest {
        context: Context::Uri(context_uri),
        start_playing: true,
        seek_to: position_ms,
        shuffle,
        playing_track: track_uri,
    }
}

/// Play an explicit list of tracks. `start_uri` picks the first track; it is ignored under
/// `shuffle`, which shuffles the whole list.
pub fn play_tracks(
    tracks: Vec<String>,
    start_uri: Option<String>,
    start_position_ms: u32,
    shuffle: bool,
) -> (request: LoadRequest)
    ensures
        request == (LoadRequest {
            context: Context::Tracks(tracks),
            start_playing: true,
            seek_to: start_position_ms,
            shuffle,
            playing_track: if shuffle { None } else { start_uri },
        }),
{
    LoadRequest {
        context: Context::Tracks(tracks),
        start_playing: true,
        seek_to: start_position_ms,
        shuffle,
        playing_track: if shuffle {
            None
        } else {
            start_uri
        },
    }
}

/// Load a single track and start playing at a position.
pub fn play_track_at(uri: String, position_ms: u32) -> (request: LoadRequest)
    ensures
        request.context matches Context::Tracks(tracks) && tracks@ == seq![uri],
        request.start_playing,
        request.seek_to == position_ms,
        !request.shuffle,
        request.playing_track is None,
{
    let mut tracks: Vec<String> = Vec::new();
    tracks.push(uri);
    assert(tracks@ =~= seq![uri]);
    LoadRequest {
        context: Context::Tracks(tracks),
        start_playing: true,
        seek_to: position_ms,
        shuffle: false,
        playing_track: None,
    }
}

/// Whether streaming would need to ask the user for a login: the cache can be opened and holds
/// no credentials.
pub fn needs_authorization<C, E>(cached: &Result<Option<C>, E>) -> (yes: bool)
    ensures
        yes == (cached matches Ok(None)),
{
    match cached {
        Ok(creds) => creds.is_none(),
        Err(_) => false,
    }
}

/// The directories of the credentials and of the audio cache.
#[derive(Debug)]
pub struct CacheDirs {
    pub base: Location,
    pub audio: Location,
}

/// Where credentials and audio are cached, if there is a home directory.
pub fn cache_dirs(home: Option<&str>) -> (dirs: Option<CacheDirs>)
    ensures
        dirs is Some <==> home is Some,
        dirs matches Some(d) ==> {
            &&& d.base.home@ == home->0@
            &&& d.base.tail@ == ".cache/myx"@
            &&& d.audio.home@ == home->0@
            &&& d.audio.tail@ == ".cache/myx/audio"@
        },
{
    match (below(home, ".cache/myx"), below(home, ".cache/myx/audio")) {
        (Some(base), Some(audio)) => Some(CacheDirs { base, audio }),
        _ => None,
    }
}

/// The loudest volume of the engine's scale.
pub const MAX_VOLUME: u16 = 65535;

/// The engine's volume for a percentage; more than 100 counts as 100.
pub open spec fn volume_of(percent: u8) -> int {
    let clamped: int = if percent <= 100 {
        percent as int
    } else {
        100
    };
    clamped * MAX_VOLUME / 100
}

/// Scale a percentage to the engine's `0..=65535` range, rounding down.
pub fn volume_from_percent(percent: u8) -> (volume: u16)
    ensures
        volume as int == volume_of(percent),
{
    let clamped: u32 = if percent <= 100 {
        percent as u32
    } else {
        100
    };
    (clamped * MAX_VOLUME as u32 / 100) as u16
}

/// Silence is zero, everything from 100 on is the loudest volume, and a higher percentage is
/// never quieter.
pub proof fn volume_scale(low: u8, high: u8)
    ensures
        volume_of(0) == 0,
        high >= 100 ==> volume_of(high) == MAX_VOLUME,
        low <= high ==> volume_of(low) <= volume_of(high),
{
}

/// How the device presents itself and its player.
#[derive(Debug, Clone, Copy)]
pub struct DeviceSettings {
    /// The name that other devices see.
    pub name: &'static str,
    pub initial_volume: u16,
    pub is_group: bool,
    pub disable_volume: bool,
    pub volume_steps: u16,
    /// How often the position is reported, in milliseconds.
    pub position_update_ms: u64,
    /// The sample rate of the visualizer, in hertz.
    pub sample_rate: u32,
}

/// The settings of the device, with its volume in percent.
pub fn device_settings(initial_volume_pct: u8) -> (settings: DeviceSettings)
    ensures
        settings.name@ == "myx"@,
        settings.initial_volume as int == volume_of(initial_volume_pct),
        !settings.is_group,
        !settings.disable_volume,
        settings.volume_steps == 64,
        settings.position_update_ms == 100,
        settings.sample_rate == 44_100,
{
    DeviceSettings {
        name: "myx",
        initial_volume: volume_from_percent(initial_volume_pct),
        is_group: false,
        disable_volume: false,
        volume_steps: 64,
        position_update_ms: 100,
        sample_rate: 44_100,
    }
}

/// An event whose track has an address is reported with that very address, and with the very
/// position that it has; a change of the position counts as a correction of it.
pub proof fn addresses_and_positions_are_reported(uri: String, position_ms: u32)
    ensures
        mapped(PlayerEvent::TrackChanged { uri: Some(uri) }) == Some(
            EngineEvent::TrackChanged { uri },
        ),
        mapped(PlayerEvent::Playing { uri: Some(uri), position_ms }) == Some(
            EngineEvent::Playing { uri, position_ms },
        ),
        mapped(PlayerEvent::Paused { uri: Some(uri), position_ms }) == Some(
            EngineEvent::Paused { uri, position_ms },
        ),
        mapped(PlayerEvent::Stopped) == Some(EngineEvent::Stopped),
        mapped(PlayerEvent::PositionChanged { uri: Some(uri), position_ms }) == Some(
            EngineEvent::PositionCorrection { uri, position_ms },
        ),
        mapped(PlayerEvent::PositionCorrection { uri: Some(uri), position_ms }) == Some(
            EngineEvent::PositionCorrection { uri, position_ms },
        ),
        mapped(PlayerEvent::EndOfTrack { uri: Some(uri) }) == Some(EngineEvent::EndOfTrack { uri }),
{
}

/// An event whose track has no address is not reported, and neither is one that the app does not
/// follow.
pub proof fn events_without_an_address_are_not_reported(position_ms: u32)
    ensures
        mapped(PlayerEvent::TrackChanged { uri: None }) is None,
        mapped(PlayerEvent::Playing { uri: None, position_ms }) is None,
        mapped(PlayerEvent::Paused { uri: None, position_ms }) is None,
        mapped(PlayerEvent::PositionChanged { uri: None, position_ms }) is None,
        mapped(PlayerEvent::PositionCorrection { uri: None, position_ms }) is None,
        mapped(PlayerEvent::EndOfTrack { uri: None }) is None,
        mapped(PlayerEvent::Other) is None,
{
}

/// Before any event nothing is reported or sent, the visualizer is as it was, and the bridge is
/// open.
pub proof fn nothing_is_reported_before_an_event(before: bool, delivers: Seq<bool>)
    ensures
        reported(seq![]) == Seq::<EngineEvent>::empty(),
        active_after(before, seq![]) == before,
        bridged(before, seq![], delivers).sent == Seq::<EngineEvent>::empty(),
        bridged(before, seq![], delivers).active == before,
        bridged(before, seq![], delivers).open,
{
}

/// Audio flows after playing, with or without an address, and does not after pausing or stopping;
/// no other event tells.
pub proof fn only_playback_tells_whether_audio_flows(event: PlayerEvent)
    ensures
        flowing(event) == Some(true) <==> event is Playing,
        flowing(event) == Some(false) <==> event is Paused || event is Stopped,
{
}

/// The volume of a percentage up to 100 is the greatest that is no more than that many hundredths
/// of the loudest, 65535; of a higher percentage it is the loudest.
pub proof fn volume_is_the_share_rounded_down(percent: u8)
    ensures
        percent <= 100 ==> 100 * volume_of(percent) <= percent * 65535 < 100 * (volume_of(percent)
            + 1),
        percent > 100 ==> volume_of(percent) == 65535,
{
}

} // verus!
