//! Chat components: the tree of text, translations, scores, selectors, keybinds and NBT
//! lookups that the game renders, each with a style, click and hover events, and child
//! components ("extra").
use vstd::prelude::*;

verus! {

/// A scoreboard value shown by a score component.
#[derive(Debug, Clone)]
pub struct Score {
    pub name: String,
    pub objective: String,
}

impl Score {
    pub fn new(name: String, objective: String) -> (r: Self)
        ensures
            r.name@ == name@,
            r.objective@ == objective@,
    {
        Score { name, objective }
    }
}

/// Where an NBT component reads its data from.
#[derive(Debug, Clone)]
pub enum DataSource {
    Block { block: String },
    Entity { entity: String },
    Storage { storage: String },
}

impl DataSource {
    pub fn block(block: String) -> (r: Self)
        ensures
            r matches DataSource::Block { block: b } && b@ == block@,
    {
        DataSource::Block { block }
    }

    pub fn entity(entity: String) -> (r: Self)
        ensures
            r matches DataSource::Entity { entity: e } && e@ == entity@,
    {
        DataSource::Entity { entity }
    }

    pub fn storage(storage: String) -> (r: Self)
        ensures
            r matches DataSource::Storage { storage: s } && s@ == storage@,
    {
        DataSource::Storage { storage }
    }
}

/// What happens when the player clicks a component.
#[derive(Debug, Clone)]
pub enum ClickEvent {
    OpenUrl { value: String },
    OpenFile { value: String },
    RunCommand { value: String },
    SuggestCommand { value: String },
    ChangePage { value: String },
    CopyToClipboard { value: String },
}

impl ClickEvent {
    pub fn open_url(value: String) -> (r: Self)
        ensures
            r matches ClickEvent::OpenUrl { value: v } && v@ == value@,
    {
        ClickEvent::OpenUrl { value }
    }

    pub fn open_file(value: String) -> (r: Self)
        ensures
            r matches ClickEvent::OpenFile { value: v } && v@ == value@,
    {
        ClickEvent::OpenFile { value }
    }

    pub fn run_command(value: String) -> (r: Self)
        ensures
            r matches ClickEvent::RunCommand { value: v } && v@ == value@,
    {
        ClickEvent::RunCommand { value }
    }

    pub fn suggest_command(value: String) -> (r: Self)
        ensures
            r matches ClickEvent::SuggestCommand { value: v } && v@ == value@,
    {
        ClickEvent::SuggestCommand { value }
    }

    pub fn change_page(value: String) -> (r: Self)
        ensures
            r matches ClickEvent::ChangePage { value: v } && v@ == value@,
    {
        ClickEvent::ChangePage { value }
    }

    pub fn copy_to_clipboard(value: String) -> (r: Self)
        ensures
            r matches ClickEvent::CopyToClipboard { value: v } && v@ == value@,
    {
        ClickEvent::CopyToClipboard { value }
    }
}

/// What is shown when the player hovers over a component.
#[derive(Debug)]
pub enum HoverEvent {
    ShowText { contents: Box<Chat> },
}

impl HoverEvent {
    pub fn show_text(contents: Box<Chat>) -> (r: Self)
        ensures
            r == (HoverEvent::ShowText { contents }),
    {
        HoverEvent::ShowText { contents }
    }
}

/// The formatting of a component; every field left `None` is inherited from the parent.
#[derive(Debug)]
pub struct Style {
    pub color: Option<String>,
    pub bold: Option<bool>,
    pub italic: Option<bool>,
    pub underlined: Option<bool>,
    pub strikethrough: Option<bool>,
    pub obfuscated: Option<bool>,
    pub insertion: Option<String>,
    pub font: Option<String>,
    pub hover_event: Option<HoverEvent>,
    pub click_event: Option<ClickEvent>,
}

impl Style {
    /// The style that sets nothing.
    pub open spec fn empty() -> Style {
        Style {
            color: None,
            bold: None,
            italic: None,
            underlined: None,
            strikethrough: None,
            obfuscated: None,
            insertion: None,
            font: None,
            hover_event: None,
            click_event: None,
        }
    }

    pub fn color(&mut self, color: String) -> (r: &mut Self)
        ensures
            *r == (Style { color: Some(color), ..*old(self) }),
            *final(self) == *final(r),
    {
        self.color = Some(color);
        self
    }

    pub fn bold(&mut self, bold: bool) -> (r: &mut Self)
        ensures
            *r == (Style { bold: Some(bold), ..*old(self) }),
            *final(self) == *final(r),
    {
        self.bold = Some(bold);
        self
    }

    pub fn italic(&mut self, italic: bool) -> (r: &mut Self)
        ensures
            *r == (Style { italic: Some(italic), ..*old(self) }),
            *final(self) == *final(r),
    {
        self.italic = Some(italic);
        self
    }

    pub fn underlined(&mut self, underlined: bool) -> (r: &mut Self)
        ensures
            *r == (Style { underlined: Some(underlined), ..*old(self) }),
            *final(self) == *final(r),
    {
        self.underlined = Some(underlined);
        self
    }

    pub fn strikethrough(&mut self, strikethrough: bool) -> (r: &mut Self)
        ensures
            *r == (Style { strikethrough: Some(strikethrough), ..*old(self) }),
            *final(self) == *final(r),
    {
        self.strikethrough = Some(strikethrough);
        self
    }

    pub fn obfuscated(&mut self, obfuscated: bool) -> (r: &mut Self)
        ensures
            *r == (Style { obfuscated: Some(obfuscated), ..*old(self) }),
            *final(self) == *final(r),
    {
        self.obfuscated = Some(obfuscated);
        self
    }

    pub fn insertion(&mut self, insertion: String) -> (r: &mut Self)
        ensures
            *r == (Style { insertion: Some(insertion), ..*old(self) }),
            *final(self) == *final(r),
    {
        self.insertion = Some(insertion);
        self
    }

    pub fn font(&mut self, font: String) -> (r: &mut Self)
        ensures
            *r == (Style { font: Some(font), ..*old(self) }),
            *final(self) == *final(r),
    {
        self.font = Some(font);
        self
    }

    pub fn hover_event(&mut self, hover_event: HoverEvent) -> (r: &mut Self)
        ensures
            *r == (Style { hover_event: Some(hover_event), ..*old(self) }),
            *final(self) == *final(r),
    {
        self.hover_event = Some(hover_event);
        self
    }

    pub fn click_event(&mut self, click_event: ClickEvent) -> (r: &mut Self)
        ensures
            *r == (Style { click_event: Some(click_event), ..*old(self) }),
            *final(self) == *final(r),
    {
        self.click_event = Some(click_event);
        self
    }
}

impl Default for Style {
    fn default() -> (r: Self)
        ensures
            r == Style::empty(),
    {
        Style {
            color: None,
            bold: None,
            italic: None,
            underlined: None,
            strikethrough: None,
            obfuscated: None,
            insertion: None,
            font: None,
            hover_event: None,
            click_event: None,
        }
    }
}

/// What every component but a literal and an array carries: children, style and events.
#[derive(Debug)]
pub struct BaseChat {
    pub extra: Option<Vec<Chat>>,
    pub style: Style,
    pub click_event: Option<ClickEvent>,
    pub hover_event: Option<HoverEvent>,
}

impl BaseChat {
    /// No children, no style, no events.
    pub open spec fn empty() -> BaseChat {
        BaseChat { extra: None, style: Style::empty(), click_event: None, hover_event: None }
    }

    /// The children, empty when there are none.
    pub open spec fn extras(self) -> Seq<Chat> {
        match self.extra {
            Some(v) => v@,
            None => Seq::empty(),
        }
    }
}

impl Default for BaseChat {
    fn default() -> (r: Self)
        ensures
            r == BaseChat::empty(),
    {
        BaseChat { extra: None, style: Style::default(), click_event: None, hover_event: None }
    }
}

/// A chat component.
#[derive(Debug)]
pub enum Chat {
    Literal(String),
    ChatArr(Vec<Chat>),
    Text { text: String, base: BaseChat },
    Translatable { translatable: String, with: Option<Vec<Box<Chat>>>, base: BaseChat },
    Score { score: Score, base: BaseChat },
    Selector { selector: String, separator: Option<Box<Chat>>, base: BaseChat },
    Keybind { keybind: String, base: BaseChat },
    NbtContents { nbt: String, interpret: bool, data_source: DataSource, base: BaseChat },
}

impl Chat {
    /// The base of a component; literals and arrays have none.
    pub open spec fn base_of(self) -> Option<BaseChat> {
        match self {
            Chat::Text { base, .. } => Some(base),
            Chat::Translatable { base, .. } => Some(base),
            Chat::Score { base, .. } => Some(base),
            Chat::Selector { base, .. } => Some(base),
            Chat::Keybind { base, .. } => Some(base),
            Chat::NbtContents { base, .. } => Some(base),
            _ => None,
        }
    }

    /// The same component with its base replaced; literals and arrays stay as they are.
    pub open spec fn with_base(self, b: BaseChat) -> Chat {
        match self {
            Chat::Text { text, .. } => Chat::Text { text, base: b },
            Chat::Translatable { translatable, with, .. } => Chat::Translatable {
                translatable,
                with,
                base: b,
            },
            Chat::Score { score, .. } => Chat::Score { score, base: b },
            Chat::Selector { selector, separator, .. } => Chat::Selector {
                selector,
                separator,
                base: b,
            },
            Chat::Keybind { keybind, .. } => Chat::Keybind { keybind, base: b },
            Chat::NbtContents { nbt, interpret, data_source, .. } => Chat::NbtContents {
                nbt,
                interpret,
                data_source,
                base: b,
            },
            other => other,
        }
    }

    /// `self` after its base (if it has one) was changed by `f`; otherwise `self` unchanged.
    pub open spec fn base_updated(self, after: Chat, f: spec_fn(BaseChat, BaseChat) -> bool) -> bool {
        match self.base_of() {
            Some(b) => after.base_of() matches Some(nb) && f(b, nb) && after == self.with_base(nb),
            None => after == self,
        }
    }

    /// Replaces the children.
    pub fn extra(&mut self, extra: Vec<Chat>)
        ensures
            old(self).base_updated(
                *final(self),
                |b: BaseChat, nb: BaseChat| nb == (BaseChat { extra: Some(extra), ..b }),
            ),
    {
        match self {
            Chat::Text { base, .. } => base.extra = Some(extra),
            Chat::Translatable { base, .. } => base.extra = Some(extra),
            Chat::Score { base, .. } => base.extra = Some(extra),
            Chat::Selector { base, .. } => base.extra = Some(extra),
            Chat::Keybind { base, .. } => base.extra = Some(extra),
            Chat::NbtContents { base, .. } => base.extra = Some(extra),
            _ => {},
        }
    }

    fn push_extra_single(base: &mut BaseChat, extra: Chat)
        ensures
            final(base).extra matches Some(v) && v@ == old(base).extras().push(extra),
            final(base).style == old(base).style,
            final(base).click_event == old(base).click_event,
            final(base).hover_event == old(base).hover_event,
    {
        let mut present: Option<Vec<Chat>> = None;
        std::mem::swap(&mut present, &mut base.extra);
        match present {
            Some(mut v) => {
                v.push(extra);
                base.extra = Some(v);
            },
            None => {
                let mut v: Vec<Chat> = Vec::new();
                v.push(extra);
                assert(v@ =~= Seq::<Chat>::empty().push(extra));
                base.extra = Some(v);
            },
        }
    }

    /// Adds one child at the end.
    pub fn push_extra(&mut self, extra: Chat)
        ensures
            old(self).base_updated(
                *final(self),
                |b: BaseChat, nb: BaseChat|
                    nb.extra matches Some(v) && v@ == b.extras().push(extra) && nb == (BaseChat {
                        extra: nb.extra,
                        ..b
                    }),
            ),
    {
        match self {
            Chat::Text { base, .. } => Self::push_extra_single(base, extra),
            Chat::Translatable { base, .. } => Self::push_extra_single(base, extra),
            Chat::Score { base, .. } => Self::push_extra_single(base, extra),
            Chat::Selector { base, .. } => Self::push_extra_single(base, extra),
            Chat::Keybind { base, .. } => Self::push_extra_single(base, extra),
            Chat::NbtContents { base, .. } => Self::push_extra_single(base, extra),
            _ => {},
        }
    }

    /// Removes every child.
    pub fn clear_extra(&mut self)
        ensures
            old(self).base_updated(
                *final(self),
                |b: BaseChat, nb: BaseChat| nb == (BaseChat { extra: None, ..b }),
            ),
    {
        match self {
            Chat::Text { base, .. } => base.extra = None,
            Chat::Translatable { base, .. } => base.extra = None,
            Chat::Score { base, .. } => base.extra = None,
            Chat::Selector { base, .. } => base.extra = None,
            Chat::Keybind { base, .. } => base.extra = None,
            Chat::NbtContents { base, .. } => base.extra = None,
            _ => {},
        }
    }

    fn append_extra_single(base: &mut BaseChat, extra: Vec<Chat>)
        ensures
            final(base).extra matches Some(v) && v@ == old(base).extras() + extra@,
            final(base).style == old(base).style,
            final(base).click_event == old(base).click_event,
            final(base).hover_event == old(base).hover_event,
    {
        let mut extra = extra;
        let mut present: Option<Vec<Chat>> = None;
        std::mem::swap(&mut present, &mut base.extra);
        match present {
            Some(mut v) => {
                v.append(&mut extra);
                base.extra = Some(v);
            },
            None => {
                assert(Seq::<Chat>::empty() + extra@ =~= extra@);
                base.extra = Some(extra);
            },
        }
    }

    /// Adds the given children at the end, in order.
    pub fn append_extra(&mut self, extra: Vec<Chat>)
        ensures
            old(self).base_updated(
                *final(self),
                |b: BaseChat, nb: BaseChat|
                    nb.extra matches Some(v) && v@ == b.extras() + extra@ && nb == (BaseChat {
                        extra: nb.extra,
                        ..b
                    }),
            ),
    {
        match self {
            Chat::Text { base, .. } => Self::append_extra_single(base, extra),
            Chat::Translatable { base, .. } => Self::append_extra_single(base, extra),
            Chat::Score { base, .. } => Self::append_extra_single(base, extra),
            Chat::Selector { base, .. } => Self::append_extra_single(base, extra),
            Chat::Keybind { base, .. } => Self::append_extra_single(base, extra),
            Chat::NbtContents { base, .. } => Self::append_extra_single(base, extra),
            _ => {},
        }
    }

    /// Sets the click event of the component's base.
    pub fn click_event(&mut self, click_event: ClickEvent)
        ensures
            old(self).base_updated(
                *final(self),
                |b: BaseChat, nb: BaseChat| nb == (BaseChat { click_event: Some(click_event), ..b }),
            ),
    {
        match self {
            Chat::Text { base, .. } => base.click_event = Some(click_event),
            Chat::Translatable { base, .. } => base.click_event = Some(click_event),
            Chat::Score { base, .. } => base.click_event = Some(click_event),
            Chat::Selector { base, .. } => base.click_event = Some(click_event),
            Chat::Keybind { base, .. } => base.click_event = Some(click_event),
            Chat::NbtContents { base, .. } => base.click_event = Some(click_event),
            _ => {},
        }
    }

    /// Sets the hover event of the component's base.
    pub fn hover_event(&mut self, hover_event: HoverEvent)
        ensures
            old(self).base_updated(
                *final(self),
                |b: BaseChat, nb: BaseChat| nb == (BaseChat { hover_event: Some(hover_event), ..b }),
            ),
    {
        match self {
            Chat::Text { base, .. } => base.hover_event = Some(hover_event),
            Chat::Translatable { base, .. } => base.hover_event = Some(hover_event),
            Chat::Score { base, .. } => base.hover_event = Some(hover_event),
            Chat::Selector { base, .. } => base.hover_event = Some(hover_event),
            Chat::Keybind { base, .. } => base.hover_event = Some(hover_event),
            Chat::NbtContents { base, .. } => base.hover_event = Some(hover_event),
            _ => {},
        }
    }

    fn modify_style_single<F: FnOnce(Style) -> Style>(base: &mut BaseChat, func: F)
        requires
            call_requires(func, (old(base).style,)),
        ensures
            call_ensures(func, (old(base).style,), final(base).style),
            final(base).extra == old(base).extra,
            final(base).click_event == old(base).click_event,
            final(base).hover_event == old(base).hover_event,
    {
        let mut style = Style::default();
        std::mem::swap(&mut style, &mut base.style);
        base.style = func(style);
    }

    /// Hands the style of the component's base to `func` and keeps what it returns.
    pub fn modify_style<F: FnOnce(Style) -> Style>(&mut self, func: F)
        requires
            old(self).base_of() matches Some(b) ==> call_requires(func, (b.style,)),
        ensures
            old(self).base_updated(
                *final(self),
                |b: BaseChat, nb: BaseChat|
                    call_ensures(func, (b.style,), nb.style) && nb == (BaseChat { style: nb.style, ..b }),
            ),
    {
        match self {
            Chat::Text { base, .. } => Self::modify_style_single(base, func),
            Chat::Translatable { base, .. } => Self::modify_style_single(base, func),
            Chat::Score { base, .. } => Self::modify_style_single(base, func),
            Chat::Selector { base, .. } => Self::modify_style_single(base, func),
            Chat::Keybind { base, .. } => Self::modify_style_single(base, func),
            Chat::NbtContents { base, .. } => Self::modify_style_single(base, func),
            _ => {},
        }
    }

    pub fn literal(string: String) -> (r: Self)
        ensures
            r == Chat::Literal(string),
    {
        Chat::Literal(string)
    }

    pub fn text(string: String) -> (r: Self)
        ensures
            r == (Chat::Text { text: string, base: BaseChat::empty() }),
    {
        Chat::Text { text: string, base: BaseChat::default() }
    }

    pub fn translatable(translatable: String, with: Option<Vec<Box<Chat>>>) -> (r: Self)
        ensures
            r == (Chat::Translatable { translatable, with, base: BaseChat::empty() }),
    {
        Chat::Translatable { translatable, with, base: BaseChat::default() }
    }

    pub fn score(score: Score) -> (r: Self)
        ensures
            r == (Chat::Score { score, base: BaseChat::empty() }),
    {
        Chat::Score { score, base: BaseChat::default() }
    }

    pub fn selector(selector: String, separator: Option<Box<Chat>>) -> (r: Self)
        ensures
            r == (Chat::Selector { selector, separator, base: BaseChat::empty() }),
    {
        Chat::Selector { selector, separator, base: BaseChat::default() }
    }

    pub fn keybind(keybind: String) -> (r: Self)
        ensures
            r == (Chat::Keybind { keybind, base: BaseChat::empty() }),
    {
        Chat::Keybind { keybind, base: BaseChat::default() }
    }

    pub fn nbt_contents(path: String, interpret: bool, data_source: DataSource) -> (r: Self)
        ensures
            r == (Chat::NbtContents { nbt: path, interpret, data_source, base: BaseChat::empty() }),
    {
        Chat::NbtContents { nbt: path, interpret, data_source, base: BaseChat::default() }
    }
}

impl From<String> for Chat {
    fn from(str: String) -> (r: Self) {
        Chat::text(str)
    }
}

impl vstd::std_specs::convert::FromSpecImpl<String> for Chat {
    open spec fn obeys_from_spec() -> bool {
        true
    }

    open spec fn from_spec(str: String) -> Chat {
        Chat::Text { text: str, base: BaseChat::empty() }
    }
}

} // verus!
