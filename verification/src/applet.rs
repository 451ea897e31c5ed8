//! The decisions of the panel applet: each message from the UI, the
//! clipboard watcher or the keyboard becomes a new state and a list of
//! effects for the UI layer to carry out (popups, clipboard writes,
//! saves).

use vstd::prelude::*;

use crate::capture::join_strings;
use crate::cleanup::join_with;
use crate::emoji_recents::{EmojiRecents, MAX_RECENT_EMOJI};
use crate::history::{
    pin_toggled, pinned_of, pushed, references_blob, Entry, EntryView, History, Payload,
    PayloadView,
};
use crate::mru::mru_push;
use crate::recent_colors::{
    normalize_hex, normalize_is_idempotent, normalized, parse_color, RecentColors, MAX_RECENT_COLORS,
};
use crate::search::{entry_texts, filtered_clipboard, match_indices};
use crate::text::{chars_of, string_of, string_of_str};

verus! {

/// The tabs of the popup.
#[derive(PartialEq, Eq, Structural, Clone, Copy, Debug)]
pub enum Tab {
    Clipboard,
    Emoji,
    Color,
}

/// What the applet is told.
pub enum Message {
    TogglePopup,
    /// The open popup was closed by the compositor.
    PopupClosed,
    Tab(Tab),
    Search(String),
    HexInput(String),
    PickClipboard(usize),
    PickEmoji(String),
    PickColor(String),
    /// Toggle the pin of the clipboard entry at this index.
    TogglePin(usize),
    /// Pick the Nth (0-based) entry of the filtered clipboard list.
    PickByNumber(usize),
    FocusSearch,
    ClearClipboard,
    OpenSettings,
    /// New clipboard content, with the configured history size and
    /// whether history is kept on disk.
    Captured(Entry, u32, bool),
    /// Set the primary selection to this text.
    MirrorPrimary(String),
    CloseEscape,
}

/// What the UI layer is asked to do.
pub enum Effect {
    OpenPopup,
    ClosePopup,
    /// Write text to the regular clipboard, or to primary.
    WriteText(String, bool),
    /// Write text under a mime type.
    WriteTyped(String, String, bool),
    /// Write a blob file (hash, extension) under a mime type.
    WriteBlob(String, String, String, bool),
    /// Empty the regular clipboard, or primary.
    ClearSelection(bool),
    SaveHistory,
    SaveEmojiRecents,
    SaveColorRecents,
    /// Delete the blob files whose hash is not in this list.
    CollectBlobs(Vec<String>),
    FocusSearch,
    OpenSettings,
}

/// An effect as plain values.
pub enum EffectView {
    OpenPopup,
    ClosePopup,
    WriteText(Seq<char>, bool),
    WriteTyped(Seq<char>, Seq<char>, bool),
    WriteBlob(Seq<char>, Seq<char>, Seq<char>, bool),
    ClearSelection(bool),
    SaveHistory,
    SaveEmojiRecents,
    SaveColorRecents,
    CollectBlobs(Set<Seq<char>>),
    FocusSearch,
    OpenSettings,
}

impl View for Effect {
    type V = EffectView;

    open spec fn view(&self) -> EffectView {
        match self {
            Effect::OpenPopup => EffectView::OpenPopup,
            Effect::ClosePopup => EffectView::ClosePopup,
            Effect::WriteText(t, p) => EffectView::WriteText(t@, *p),
            Effect::WriteTyped(t, m, p) => EffectView::WriteTyped(t@, m@, *p),
            Effect::WriteBlob(h, e, m, p) => EffectView::WriteBlob(h@, e@, m@, *p),
            Effect::ClearSelection(p) => EffectView::ClearSelection(*p),
            Effect::SaveHistory => EffectView::SaveHistory,
            Effect::SaveEmojiRecents => EffectView::SaveEmojiRecents,
            Effect::SaveColorRecents => EffectView::SaveColorRecents,
            Effect::CollectBlobs(keep) => EffectView::CollectBlobs(
                Set::new(|h: Seq<char>| keep.deep_view().contains(h)),
            ),
            Effect::FocusSearch => EffectView::FocusSearch,
            Effect::OpenSettings => EffectView::OpenSettings,
        }
    }
}

/// A message as plain values.
pub enum MessageView {
    TogglePopup,
    PopupClosed,
    Tab(Tab),
    Search(Seq<char>),
    HexInput(Seq<char>),
    PickClipboard(usize),
    PickEmoji(Seq<char>),
    PickColor(Seq<char>),
    TogglePin(usize),
    PickByNumber(usize),
    FocusSearch,
    ClearClipboard,
    OpenSettings,
    Captured(EntryView, u32, bool),
    MirrorPrimary(Seq<char>),
    CloseEscape,
}

impl View for Message {
    type V = MessageView;

    open spec fn view(&self) -> MessageView {
        match self {
            Message::TogglePopup => MessageView::TogglePopup,
            Message::PopupClosed => MessageView::PopupClosed,
            Message::Tab(t) => MessageView::Tab(*t),
            Message::Search(s) => MessageView::Search(s@),
            Message::HexInput(s) => MessageView::HexInput(s@),
            Message::PickClipboard(i) => MessageView::PickClipboard(*i),
            Message::PickEmoji(s) => MessageView::PickEmoji(s@),
            Message::PickColor(s) => MessageView::PickColor(s@),
            Message::TogglePin(i) => MessageView::TogglePin(*i),
            Message::PickByNumber(n) => MessageView::PickByNumber(*n),
            Message::FocusSearch => MessageView::FocusSearch,
            Message::ClearClipboard => MessageView::ClearClipboard,
            Message::OpenSettings => MessageView::OpenSettings,
            Message::Captured(e, n, p) => MessageView::Captured(e@, *n, *p),
            Message::MirrorPrimary(s) => MessageView::MirrorPrimary(s@),
            Message::CloseEscape => MessageView::CloseEscape,
        }
    }
}

/// The applet's state as plain values.
pub struct AppletView {
    pub tab: Tab,
    pub search: Seq<char>,
    pub hex_input: Seq<char>,
    pub history: Seq<EntryView>,
    pub emoji_recents: Seq<Seq<char>>,
    pub color_recents: Seq<Seq<char>>,
    pub popup_open: bool,
    pub persist_history: bool,
}

/// The applet's state.
pub struct Applet {
    pub tab: Tab,
    /// The search text of the popup.
    pub search: String,
    /// The hex color being typed in the color tab.
    pub hex_input: String,
    pub history: History,
    pub emoji_recents: EmojiRecents,
    pub color_recents: RecentColors,
    pub popup_open: bool,
    /// Whether the history is written to disk, as last configured.
    pub persist_history: bool,
}

impl View for Applet {
    type V = AppletView;

    open spec fn view(&self) -> AppletView {
        AppletView {
            tab: self.tab,
            search: self.search@,
            hex_input: self.hex_input@,
            history: self.history@,
            emoji_recents: self.emoji_recents@,
            color_recents: self.color_recents@,
            popup_open: self.popup_open,
            persist_history: self.persist_history,
        }
    }
}

/// The clipboard writes that put entry `e` back on the clipboard: text
/// to both selections; an image or file list to the regular clipboard
/// under its type, with primary wiped; rich text as HTML plus its plain
/// fallback to both selections.
pub open spec fn write_effects(e: EntryView) -> Seq<EffectView> {
    match e.payload {
        PayloadView::Text => seq![EffectView::WriteText(e.text, false), EffectView::WriteText(e.text, true)],
        PayloadView::Image { blob, mime, ext, .. } => seq![
            EffectView::WriteBlob(blob, ext, mime, false),
            EffectView::ClearSelection(true),
        ],
        PayloadView::Files { uris } => seq![
            EffectView::WriteTyped(join_with(uris, '\n'), "text/uri-list"@, false),
            EffectView::ClearSelection(true),
        ],
        PayloadView::Html { blob } => seq![
            EffectView::WriteBlob(blob, "html"@, "text/html"@, false),
            EffectView::WriteText(e.text, false),
            EffectView::WriteText(e.text, true),
        ],
    }
}

/// The primary-selection update for freshly captured content: the text
/// is re-published to both selections (it was trimmed at capture); a
/// file list or rich text is mirrored to primary as text; an image
/// wipes primary.
pub open spec fn capture_effects(e: EntryView) -> Seq<EffectView> {
    match e.payload {
        PayloadView::Text => seq![EffectView::WriteText(e.text, false), EffectView::WriteText(e.text, true)],
        PayloadView::Files { uris } => seq![EffectView::WriteText(join_with(uris, '\n'), true)],
        PayloadView::Html { .. } => seq![EffectView::WriteText(e.text, true)],
        PayloadView::Image { .. } => seq![EffectView::ClearSelection(true)],
    }
}

/// The blob hashes some entry of `s` references.
pub open spec fn blob_set(s: Seq<EntryView>) -> Set<Seq<char>> {
    Set::new(|h: Seq<char>| references_blob(s, h))
}

/// Saving the history, when it is kept on disk.
pub open spec fn save_if(persist: bool) -> Seq<EffectView> {
    if persist { seq![EffectView::SaveHistory] } else { Seq::empty() }
}

/// Close the popup if it is open.
pub open spec fn close_popup(s: AppletView) -> (AppletView, Seq<EffectView>) {
    if s.popup_open {
        (AppletView { popup_open: false, ..s }, seq![EffectView::ClosePopup])
    } else {
        (s, Seq::empty())
    }
}

/// `effects` followed by closing the popup.
pub open spec fn then_close(s: AppletView, effects: Seq<EffectView>) -> (AppletView, Seq<EffectView>) {
    (close_popup(s).0, effects + close_popup(s).1)
}

/// The state after `m`, and the effects it asks for.
pub open spec fn step(s: AppletView, m: MessageView) -> (AppletView, Seq<EffectView>) {
    match m {
        MessageView::TogglePopup => if s.popup_open {
            (AppletView { popup_open: false, ..s }, seq![EffectView::ClosePopup])
        } else {
            (
                AppletView { popup_open: true, search: Seq::empty(), hex_input: Seq::empty(), ..s },
                seq![EffectView::OpenPopup],
            )
        },
        MessageView::PopupClosed => (AppletView { popup_open: false, ..s }, Seq::empty()),
        MessageView::Tab(t) => (AppletView { tab: t, search: Seq::empty(), ..s }, Seq::empty()),
        MessageView::Search(q) => (AppletView { search: q, ..s }, Seq::empty()),
        MessageView::HexInput(h) => (
            AppletView { hex_input: if h.len() > 7 { h.take(7) } else { h }, ..s },
            Seq::empty(),
        ),
        MessageView::PickClipboard(idx) => if idx < s.history.len() {
            then_close(s, write_effects(s.history[idx as int]))
        } else {
            then_close(s, Seq::empty())
        },
        MessageView::PickEmoji(e) => then_close(
            AppletView {
                emoji_recents: if e.len() == 0 {
                    s.emoji_recents
                } else {
                    mru_push(s.emoji_recents, e, MAX_RECENT_EMOJI as nat)
                },
                ..s
            },
            seq![EffectView::SaveEmojiRecents, EffectView::WriteText(e, false), EffectView::WriteText(e, true)],
        ),
        MessageView::PickColor(hex) => match normalized(hex) {
            Some(c) => then_close(
                AppletView { color_recents: mru_push(s.color_recents, c, MAX_RECENT_COLORS as nat), ..s },
                seq![EffectView::SaveColorRecents, EffectView::WriteText(c, false), EffectView::WriteText(c, true)],
            ),
            None => then_close(s, Seq::empty()),
        },
        MessageView::TogglePin(idx) => if idx < s.history.len() {
            (AppletView { history: pin_toggled(s.history, idx as int), ..s }, save_if(s.persist_history))
        } else {
            (s, Seq::empty())
        },
        MessageView::PickByNumber(n) => {
            let m = match_indices(entry_texts(s.history), s.search);
            if n < m.len() {
                then_close(s, write_effects(s.history[m[n as int]]))
            } else {
                (s, Seq::empty())
            }
        },
        MessageView::FocusSearch => (AppletView { tab: Tab::Clipboard, ..s }, seq![EffectView::FocusSearch]),
        MessageView::ClearClipboard => {
            // The on-disk copy is wiped too, whether or not history is kept.
            let h = pinned_of(s.history);
            (
                AppletView { history: h, ..s },
                seq![
                    EffectView::SaveHistory,
                    EffectView::CollectBlobs(blob_set(h)),
                    EffectView::ClearSelection(false),
                    EffectView::ClearSelection(true),
                ],
            )
        },
        MessageView::OpenSettings => then_close(s, seq![EffectView::OpenSettings]),
        MessageView::Captured(e, size, persist) => {
            let cap: nat = if size < 1 { 1 } else { size as nat };
            let h = pushed(s.history, e, cap);
            (
                AppletView { history: h, persist_history: persist, ..s },
                capture_effects(e) + save_if(persist) + seq![EffectView::CollectBlobs(blob_set(h))],
            )
        },
        MessageView::MirrorPrimary(t) => (s, seq![EffectView::WriteText(t, true)]),
        MessageView::CloseEscape => close_popup(s),
    }
}

/// Picking an entry puts it back on the clipboard as it was captured,
/// then closes the popup: a text to both selections; a file list to the
/// regular clipboard as `text/uri-list`, one URI per line, so that a
/// file manager pastes the files, with primary wiped; an image under its
/// own mime type from its blob file, with primary wiped; rich text as
/// `text/html` from its blob, and its plain text to both selections.
pub proof fn pick_writes_entry_back(s: AppletView, idx: usize)
    requires
        idx < s.history.len(),
    ensures
        ({
            let e = s.history[idx as int];
            let fx = step(s, MessageView::PickClipboard(idx)).1;
            &&& !step(s, MessageView::PickClipboard(idx)).0.popup_open
            &&& fx.last() == EffectView::ClosePopup || !s.popup_open
            &&& match e.payload {
                PayloadView::Text => fx.len() >= 2 && fx[0] == EffectView::WriteText(e.text, false)
                    && fx[1] == EffectView::WriteText(e.text, true),
                PayloadView::Files { uris } => fx.len() >= 2 && fx[0] == EffectView::WriteTyped(
                    join_with(uris, '\n'),
                    "text/uri-list"@,
                    false,
                ) && fx[1] == EffectView::ClearSelection(true),
                PayloadView::Image { blob, mime, ext, .. } => fx.len() >= 2 && fx[0]
                    == EffectView::WriteBlob(blob, ext, mime, false) && fx[1] == EffectView::ClearSelection(true),
                PayloadView::Html { blob } => fx.len() >= 3 && fx[0] == EffectView::WriteBlob(
                    blob,
                    "html"@,
                    "text/html"@,
                    false,
                ) && fx[1] == EffectView::WriteText(e.text, false) && fx[2] == EffectView::WriteText(e.text, true),
            }
        }),
{
}

/// The effects as plain values.
pub open spec fn effect_views(v: Seq<Effect>) -> Seq<EffectView> {
    v.map_values(|e: Effect| e@)
}

fn write_entry(e: &Entry) -> (r: Vec<Effect>)
    ensures
        effect_views(r@) == write_effects(e@),
{
    let mut r: Vec<Effect> = Vec::new();
    match &e.payload {
        Payload::Text => {
            r.push(Effect::WriteText(e.text.clone(), false));
            r.push(Effect::WriteText(e.text.clone(), true));
        },
        Payload::Image { blob, mime, ext, .. } => {
            r.push(Effect::WriteBlob(blob.clone(), ext.clone(), mime.clone(), false));
            r.push(Effect::ClearSelection(true));
        },
        Payload::Files { uris } => {
            r.push(Effect::WriteTyped(join_strings(uris, '\n'), string_of_str("text/uri-list"), false));
            r.push(Effect::ClearSelection(true));
        },
        Payload::Html { blob } => {
            r.push(Effect::WriteBlob(blob.clone(), string_of_str("html"), string_of_str("text/html"), false));
            r.push(Effect::WriteText(e.text.clone(), false));
            r.push(Effect::WriteText(e.text.clone(), true));
        },
    }
    assert(effect_views(r@) =~= write_effects(e@));
    r
}

fn capture_entry_effects(e: &Entry) -> (r: Vec<Effect>)
    ensures
        effect_views(r@) == capture_effects(e@),
{
    let mut r: Vec<Effect> = Vec::new();
    match &e.payload {
        Payload::Text => {
            r.push(Effect::WriteText(e.text.clone(), false));
            r.push(Effect::WriteText(e.text.clone(), true));
        },
        Payload::Files { uris } => {
            r.push(Effect::WriteText(join_strings(uris, '\n'), true));
        },
        Payload::Html { .. } => {
            r.push(Effect::WriteText(e.text.clone(), true));
        },
        Payload::Image { .. } => {
            r.push(Effect::ClearSelection(true));
        },
    }
    assert(effect_views(r@) =~= capture_effects(e@));
    r
}

fn collect_effect(h: &History) -> (r: Effect)
    ensures
        r@ == EffectView::CollectBlobs(blob_set(h@)),
{
    let keep = h.live_blob_hashes();
    let r = Effect::CollectBlobs(keep);
    assert(Set::new(|x: Seq<char>| keep.deep_view().contains(x)) =~= blob_set(h@));
    r
}

fn take_chars(s: &str, n: usize) -> (r: String)
    ensures
        r@ == if s@.len() > n { s@.take(n as int) } else { s@ },
{
    let c = chars_of(s);
    if c.len() > n {
        let t = crate::text::sub_chars(c.as_slice(), 0, n);
        assert(t@ =~= s@.take(n as int));
        string_of(t.as_slice())
    } else {
        string_of(c.as_slice())
    }
}

impl Applet {
    /// The applet as it starts: clipboard tab, popup closed, empty
    /// inputs, the lists as loaded, and the configured persistence.
    pub fn new(
        history: History,
        emoji_recents: EmojiRecents,
        color_recents: RecentColors,
        persist_history: bool,
    ) -> (r: Self)
        ensures
            r@.persist_history == persist_history,
            r@.tab == Tab::Clipboard,
            r@.search.len() == 0,
            r@.hex_input.len() == 0,
            r@.history == history@,
            r@.emoji_recents == emoji_recents@,
            r@.color_recents == color_recents@,
            !r@.popup_open,
    {
        Applet {
            tab: Tab::Clipboard,
            search: String::new(),
            hex_input: String::new(),
            history,
            emoji_recents,
            color_recents,
            popup_open: false,
            persist_history,
        }
    }

    fn close_popup(&mut self, effects: &mut Vec<Effect>)
        ensures
            final(self)@ == close_popup(old(self)@).0,
            effect_views(final(effects)@) == effect_views(old(effects)@) + close_popup(old(self)@).1,
    {
        let ghost before = effects@;
        if self.popup_open {
            self.popup_open = false;
            effects.push(Effect::ClosePopup);
            assert(effect_views(effects@) =~= effect_views(before) + seq![EffectView::ClosePopup]);
        } else {
            assert(effect_views(effects@) =~= effect_views(before) + Seq::<EffectView>::empty());
        }
    }

    fn toggle_popup(&mut self) -> (r: Vec<Effect>)
        ensures
            (final(self)@, effect_views(r@)) == step(old(self)@, MessageView::TogglePopup),
    {
        let mut effects: Vec<Effect> = Vec::new();
        if self.popup_open {
            self.popup_open = false;
            effects.push(Effect::ClosePopup);
        } else {
            self.search = String::new();
            self.hex_input = String::new();
            self.popup_open = true;
            effects.push(Effect::OpenPopup);
        }
        assert(effect_views(effects@) =~= step(old(self)@, MessageView::TogglePopup).1);
        effects
    }

    fn pick_clipboard(&mut self, idx: usize) -> (r: Vec<Effect>)
        ensures
            (final(self)@, effect_views(r@)) == step(old(self)@, MessageView::PickClipboard(idx)),
    {
        let mut effects: Vec<Effect> = Vec::new();
        match self.history.get(idx) {
            Some(e) => {
                effects = write_entry(e);
            },
            None => {},
        }
        assert(idx >= self.history@.len() ==> effect_views(effects@) =~= Seq::<EffectView>::empty());
        self.close_popup(&mut effects);
        effects
    }

    fn pick_emoji(&mut self, e: String) -> (r: Vec<Effect>)
        ensures
            (final(self)@, effect_views(r@)) == step(old(self)@, MessageView::PickEmoji(e@)),
    {
        let mut effects: Vec<Effect> = Vec::new();
        self.emoji_recents.push(e.as_str());
        effects.push(Effect::SaveEmojiRecents);
        effects.push(Effect::WriteText(e.clone(), false));
        effects.push(Effect::WriteText(e, true));
        let ghost v = effect_views(effects@);
        assert(v =~= seq![EffectView::SaveEmojiRecents, EffectView::WriteText(e@, false), EffectView::WriteText(e@, true)]);
        self.close_popup(&mut effects);
        effects
    }

    fn pick_color(&mut self, hex: String) -> (r: Vec<Effect>)
        ensures
            (final(self)@, effect_views(r@)) == step(old(self)@, MessageView::PickColor(hex@)),
    {
        proof {
            match parse_color(hex@) {
                Some((r, g, b)) => normalize_is_idempotent(r, g, b),
                None => {},
            }
        }
        let mut effects: Vec<Effect> = Vec::new();
        match normalize_hex(hex.as_str()) {
            Some(c) => {
                self.color_recents.push(c.as_str());
                effects.push(Effect::SaveColorRecents);
                effects.push(Effect::WriteText(c.clone(), false));
                effects.push(Effect::WriteText(c, true));
            },
            None => {},
        }
        let ghost v = effect_views(effects@);
        assert(normalized(hex@) is None ==> v =~= Seq::<EffectView>::empty());
        assert(normalized(hex@) is Some ==> v =~= seq![
            EffectView::SaveColorRecents,
            EffectView::WriteText(normalized(hex@).unwrap(), false),
            EffectView::WriteText(normalized(hex@).unwrap(), true),
        ]);
        self.close_popup(&mut effects);
        effects
    }

    fn pick_by_number(&mut self, n: usize) -> (r: Vec<Effect>)
        ensures
            (final(self)@, effect_views(r@)) == step(old(self)@, MessageView::PickByNumber(n)),
    {
        let ghost s = self@;
        let mut effects: Vec<Effect> = Vec::new();
        let indices = filtered_clipboard(&self.history, self.search.as_str());
        proof { crate::search::lemma_match_indices_bound(entry_texts(s.history), s.search); }
        if n < indices.len() {
            let idx = indices[n];
            assert(idx as int == match_indices(entry_texts(s.history), s.search)[n as int]);
            match self.history.get(idx) {
                Some(e) => {
                    effects = write_entry(e);
                },
                None => {},
            }
            self.close_popup(&mut effects);
        } else {
            assert(effect_views(effects@) =~= Seq::<EffectView>::empty());
        }
        effects
    }

    fn clear_clipboard(&mut self) -> (r: Vec<Effect>)
        ensures
            (final(self)@, effect_views(r@)) == step(old(self)@, MessageView::ClearClipboard),
    {
        let mut effects: Vec<Effect> = Vec::new();
        self.history.clear();
        effects.push(Effect::SaveHistory);
        effects.push(collect_effect(&self.history));
        effects.push(Effect::ClearSelection(false));
        effects.push(Effect::ClearSelection(true));
        assert(effect_views(effects@) =~= step(old(self)@, MessageView::ClearClipboard).1);
        effects
    }

    fn captured(&mut self, entry: Entry, size: u32, persist: bool) -> (r: Vec<Effect>)
        ensures
            (final(self)@, effect_views(r@)) == step(old(self)@, MessageView::Captured(entry@, size, persist)),
    {
        let ghost e = entry@;
        let cap: usize = if size < 1 { 1 } else { size as usize };
        let mut effects = capture_entry_effects(&entry);
        let ghost first = effect_views(effects@);
        self.history.push(entry, cap);
        self.persist_history = persist;
        if persist {
            effects.push(Effect::SaveHistory);
        }
        let ghost second = effect_views(effects@);
        assert(second =~= first + save_if(persist));
        effects.push(collect_effect(&self.history));
        assert(effect_views(effects@) =~= first + save_if(persist) + seq![EffectView::CollectBlobs(crate::applet::blob_set(self.history@))]);
        effects
    }

    fn simple(&mut self, message: Message) -> (r: Vec<Effect>)
        requires
            !(message is PickClipboard || message is PickEmoji || message is PickColor
                || message is PickByNumber || message is ClearClipboard || message is Captured
                || message is TogglePopup),
        ensures
            (final(self)@, effect_views(r@)) == step(old(self)@, message@),
    {
        let ghost s = self@;
        let ghost m = message@;
        let mut effects: Vec<Effect> = Vec::new();
        match message {
            Message::PopupClosed => {
                self.popup_open = false;
            },
            Message::Tab(t) => {
                self.tab = t;
                self.search = String::new();
            },
            Message::Search(q) => {
                self.search = q;
            },
            Message::HexInput(h) => {
                self.hex_input = take_chars(h.as_str(), 7);
            },
            Message::TogglePin(idx) => {
                if self.history.toggle_pin(idx).is_some() && self.persist_history {
                    effects.push(Effect::SaveHistory);
                }
            },
            Message::FocusSearch => {
                self.tab = Tab::Clipboard;
                effects.push(Effect::FocusSearch);
            },
            Message::OpenSettings => {
                effects.push(Effect::OpenSettings);
                self.close_popup(&mut effects);
            },
            Message::MirrorPrimary(t) => {
                effects.push(Effect::WriteText(t, true));
            },
            Message::CloseEscape => {
                self.close_popup(&mut effects);
            },
            _ => {},
        }
        assert(effect_views(effects@) =~= step(s, m).1);
        effects
    }

    /// Handle one message: update the state and return the effects to
    /// carry out, in order.
    pub fn update(&mut self, message: Message) -> (r: Vec<Effect>)
        ensures
            (final(self)@, effect_views(r@)) == step(old(self)@, message@),
    {
        match message {
            Message::TogglePopup => self.toggle_popup(),
            Message::PickClipboard(idx) => self.pick_clipboard(idx),
            Message::PickEmoji(e) => self.pick_emoji(e),
            Message::PickColor(hex) => self.pick_color(hex),
            Message::PickByNumber(n) => self.pick_by_number(n),
            Message::ClearClipboard => self.clear_clipboard(),
            Message::Captured(entry, size, persist) => self.captured(entry, size, persist),
            other => self.simple(other),
        }
    }
}

} // verus!
