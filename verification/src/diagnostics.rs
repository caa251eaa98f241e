//! The diagnostics popup: one page per diagnostic under the cursor, each with
//! a header naming its severity, source and code, and keys that page through
//! them.
use vstd::prelude::*;
use crate::text::{chars_of, decimal, extend_chars, extend_str, signed_decimal, signed_decimal_chars, starts_with, string_of};

verus! {

/// The identifier of the popup among the editor's layers.
pub const DIAGNOSTICS_POPUP_ID: &'static str = "diagnostics-popup";

/// Diagnostic severity.
#[derive(Debug, Clone, Copy, PartialEq, Eq, Structural)]
pub enum Severity {
    Hint,
    Info,
    Warning,
    Error,
}

/// A diagnostic code: a number or a string.
#[derive(Debug, Clone)]
pub enum NumberOrString {
    Number(i32),
    String(String),
}

/// A diagnostic as the popup reads it.
#[derive(Debug, Clone)]
pub struct Diagnostic {
    /// The message shown in the popup's body.
    pub message: String,
    /// The severity, if the language server gave one.
    pub severity: Option<Severity>,
    /// The diagnostic code, if any.
    pub code: Option<NumberOrString>,
    /// The tool that reported the diagnostic, if known.
    pub source: Option<String>,
}

impl Diagnostic {
    /// The severity, `Warning` where none was given.
    pub fn severity(&self) -> (r: Severity)
        ensures
            r == match self.severity {
                Some(s) => s,
                None => Severity::Warning,
            },
    {
        match self.severity {
            Some(s) => s,
            None => Severity::Warning,
        }
    }
}

/// The name of a severity in a header.
pub open spec fn severity_text(s: Severity) -> Seq<char> {
    match s {
        Severity::Error => "Error"@,
        Severity::Warning => "Warning"@,
        Severity::Info => "Info"@,
        Severity::Hint => "Hint"@,
    }
}

/// The text of a diagnostic code; empty for none.
pub open spec fn code_text(code: Option<NumberOrString>) -> Seq<char> {
    match code {
        Some(NumberOrString::Number(n)) => signed_decimal(n as int),
        Some(NumberOrString::String(s)) => s@,
        None => Seq::empty(),
    }
}

/// The severity, source and code part of a header: `Error (rustc E0308)`.
pub open spec fn header_core(d: Diagnostic) -> Seq<char> {
    let sev = match d.severity {
        Some(s) => s,
        None => Severity::Warning,
    };
    let source = match d.source {
        Some(s) => s@,
        None => "unknown"@,
    };
    let code = code_text(d.code);
    severity_text(sev) + " ("@ + source + (if code.len() == 0 { Seq::empty() } else { " "@ + code })
        + "):"@
}

/// The header of the `idx`-th of `n` diagnostics, in bold: with its place
/// `[i/n]` when there is more than one.
pub open spec fn header_text(d: Diagnostic, idx: int, n: int) -> Seq<char> {
    if n > 1 {
        "**["@ + decimal((idx + 1) as nat) + "/"@ + decimal(n as nat) + "] "@ + header_core(d) + "**"@
    } else {
        "**"@ + header_core(d) + "**"@
    }
}

/// `c` is the page of the `idx`-th of `n` diagnostics: its header and its
/// message.
pub open spec fn is_page_of(c: DiagnosticContent, d: Diagnostic, idx: int, n: int) -> bool {
    &&& c.header matches Some(h) && h@ == header_text(d, idx, n)
    &&& c.body@ == d.message@
}

/// The page of one diagnostic.
#[derive(Debug, Clone)]
pub struct DiagnosticContent {
    /// The header line, as markdown.
    pub header: Option<String>,
    /// The message, as markdown.
    pub body: String,
}

/// A popup that pages through diagnostics.
pub struct DiagnosticsPopup {
    active_index: usize,
    contents: Vec<DiagnosticContent>,
}

/// The popup's pages and the page shown.
pub struct DiagnosticsPopupView {
    pub active: nat,
    pub contents: Seq<DiagnosticContent>,
}

impl View for DiagnosticsPopup {
    type V = DiagnosticsPopupView;

    closed spec fn view(&self) -> DiagnosticsPopupView {
        DiagnosticsPopupView { active: self.active_index as nat, contents: self.contents@ }
    }
}

/// The page shown after `key` on page `active` of `n`: the previous or next
/// one, wrapping around at either end; no page moves without pages.
pub open spec fn page_after(active: nat, n: nat, key: PopupKey) -> nat {
    if n == 0 {
        active
    } else {
        match key {
            PopupKey::Previous => if active == 0 {
                (n - 1) as nat
            } else {
                (active - 1) as nat
            },
            PopupKey::Next => ((active + 1) as int % (n as int)) as nat,
        }
    }
}

/// A key that pages through the popup.
#[derive(Debug, Clone, Copy, PartialEq, Eq, Structural)]
pub enum PopupKey {
    /// Alt-p: the previous diagnostic, from the first to the last.
    Previous,
    /// Alt-n: the next diagnostic, from the last to the first.
    Next,
}

fn severity_chars(s: Severity) -> (r: Vec<char>)
    ensures
        r@ == severity_text(s),
{
    match s {
        Severity::Error => chars_of("Error"),
        Severity::Warning => chars_of("Warning"),
        Severity::Info => chars_of("Info"),
        Severity::Hint => chars_of("Hint"),
    }
}

fn header_core_chars(d: &Diagnostic) -> (r: Vec<char>)
    ensures
        r@ == header_core(*d),
{
    let mut v = severity_chars(d.severity());
    extend_str(&mut v, " (");
    match &d.source {
        Some(s) => extend_str(&mut v, s.as_str()),
        None => extend_str(&mut v, "unknown"),
    }
    let code = match &d.code {
        Some(NumberOrString::Number(n)) => signed_decimal_chars(*n as i64),
        Some(NumberOrString::String(s)) => chars_of(s.as_str()),
        None => Vec::new(),
    };
    if code.len() > 0 {
        extend_str(&mut v, " ");
        extend_chars(&mut v, &code);
    }
    extend_str(&mut v, "):");
    v
}

impl DiagnosticsPopup {
    /// The page shown is one of the pages, or the first of none.
    pub closed spec fn wf(&self) -> bool {
        self.active_index == 0 || self.active_index < self.contents@.len()
    }

    /// A popup for the given diagnostics, showing the first: one page each,
    /// with its header and its message.
    pub fn new(diagnostics: &[Diagnostic]) -> (r: Self)
        requires
            diagnostics@.len() < u64::MAX,
        ensures
            r.wf(),
            r@.active == 0,
            r@.contents.len() == diagnostics@.len(),
            forall|i: int|
                0 <= i < diagnostics@.len() ==> is_page_of(
                    #[trigger] r@.contents[i],
                    diagnostics@[i],
                    i,
                    diagnostics@.len() as int,
                ),
    {
        let n = diagnostics.len();
        let mut contents: Vec<DiagnosticContent> = Vec::new();
        let mut i: usize = 0;
        while i < n
            invariant
                n == diagnostics@.len(),
                n < u64::MAX,
                i <= n,
                contents@.len() == i,
                forall|k: int|
                    0 <= k < i ==> is_page_of(#[trigger] contents@[k], diagnostics@[k], k, n as int),
            decreases n - i,
        {
            let d = &diagnostics[i];
            let mut h: Vec<char> = Vec::new();
            if n > 1 {
                extend_str(&mut h, "**[");
                let mut a = crate::text::decimal_chars((i + 1) as u64);
                h.append(&mut a);
                extend_str(&mut h, "/");
                let mut b = crate::text::decimal_chars(n as u64);
                h.append(&mut b);
                extend_str(&mut h, "] ");
            } else {
                extend_str(&mut h, "**");
            }
            let core = header_core_chars(d);
            extend_chars(&mut h, &core);
            extend_str(&mut h, "**");
            contents.push(DiagnosticContent { header: Some(string_of(&h)), body: d.message.clone() });
            i = i + 1;
        }
        DiagnosticsPopup { active_index: 0, contents }
    }

    /// The first page has a header.
    pub fn has_header(&self) -> (r: bool)
        ensures
            r == (self@.contents.len() > 0 && self@.contents[0].header is Some),
    {
        if self.contents.len() > 0 {
            self.contents[0].header.is_some()
        } else {
            false
        }
    }

    /// The page shown, `None` when there is none.
    pub fn content(&self) -> (r: Option<&DiagnosticContent>)
        ensures
            match r {
                Some(c) => self@.active < self@.contents.len() && *c == self@.contents[self@.active as int],
                None => self@.active >= self@.contents.len(),
            },
    {
        if self.active_index < self.contents.len() {
            Some(&self.contents[self.active_index])
        } else {
            None
        }
    }

    /// Shows page `index`; an index past the last page changes nothing.
    pub fn set_index(&mut self, index: usize)
        requires
            old(self).wf(),
        ensures
            final(self).wf(),
            final(self)@.contents == old(self)@.contents,
            final(self)@.active == if index < old(self)@.contents.len() {
                index as nat
            } else {
                old(self)@.active
            },
    {
        if index < self.contents.len() {
            self.active_index = index;
        }
    }

    /// Pages through the diagnostics, wrapping around at either end.
    pub fn handle_key(&mut self, key: PopupKey)
        requires
            old(self).wf(),
        ensures
            final(self).wf(),
            final(self)@.contents == old(self)@.contents,
            final(self)@.active == page_after(old(self)@.active, old(self)@.contents.len(), key),
    {
        let len = self.contents.len();
        match key {
            PopupKey::Previous => {
                let index = if self.active_index >= 1 {
                    self.active_index - 1
                } else if len > 0 {
                    len - 1
                } else {
                    0
                };
                self.set_index(index);
            },
            PopupKey::Next => {
                let m = if len > 1 { len } else { 1 };
                self.set_index((self.active_index + 1) % m);
                proof {
                    if len == 1 {
                        assert((self.active_index + 1) as int % 1 == 0);
                    }
                }
            },
        }
    }
}


/// Paging forward and then back shows the same diagnostic again, and so does
/// paging back and then forward.
pub proof fn law_next_then_previous(active: nat, n: nat)
    requires
        active < n,
    ensures
        page_after(page_after(active, n, PopupKey::Next), n, PopupKey::Previous) == active,
        page_after(page_after(active, n, PopupKey::Previous), n, PopupKey::Next) == active,
{
    if active + 1 == n {
        vstd::arithmetic::div_mod::lemma_mod_self_0(n as int);
    } else {
        vstd::arithmetic::div_mod::lemma_small_mod(active + 1, n);
    }
    if active == 0 {
        vstd::arithmetic::div_mod::lemma_mod_self_0(n as int);
    } else {
        vstd::arithmetic::div_mod::lemma_small_mod(active, n);
    }
}


/// Columns left free around the popup's text.
pub const PADDING_HORIZONTAL: u16 = 2;
/// Rows above the popup's text.
pub const PADDING_TOP: u16 = 1;
/// Rows below the popup's text.
pub const PADDING_BOTTOM: u16 = 1;
/// Rows of the header.
pub const HEADER_HEIGHT: u16 = 1;
/// Rows of the line under the header.
pub const SEPARATOR_HEIGHT: u16 = 1;

/// The width the popup's text may take in a viewport `viewport_width` wide:
/// the width less the padding, kept between 10 and 120.
pub fn max_text_width(viewport_width: u16) -> (r: u16)
    ensures
        r == ({
            let w = if viewport_width >= PADDING_HORIZONTAL { viewport_width - PADDING_HORIZONTAL } else { 0 };
            if w < 10 { 10 } else if w > 120 { 120 } else { w }
        }),
{
    let w = if viewport_width >= PADDING_HORIZONTAL { viewport_width - PADDING_HORIZONTAL } else { 0 };
    if w < 10 {
        10
    } else if w > 120 {
        120
    } else {
        w
    }
}

/// The size of the popup around text of the measured sizes: the wider of
/// header and body plus the padding, and the body's height plus the padding
/// and, where the first page has a header, the header and its line. With no
/// page shown it is 20 by 3.
pub fn popup_size(has_page: bool, has_header: bool, header_width: u16, body_width: u16, body_height: u16) -> (r: (u16, u16))
    requires
        has_page ==> PADDING_HORIZONTAL + (if header_width >= body_width { header_width } else { body_width }) <= u16::MAX,
        has_page ==> PADDING_TOP + HEADER_HEIGHT + SEPARATOR_HEIGHT + body_height + PADDING_BOTTOM <= u16::MAX,
    ensures
        r == if !has_page {
            (20u16, 3u16)
        } else {
            (
                (PADDING_HORIZONTAL + (if header_width >= body_width { header_width } else { body_width })) as u16,
                (if has_header {
                    PADDING_TOP + HEADER_HEIGHT + SEPARATOR_HEIGHT + body_height + PADDING_BOTTOM
                } else {
                    PADDING_TOP + body_height + PADDING_BOTTOM
                }) as u16,
            )
        },
{
    if !has_page {
        return (20, 3);
    }
    let wider = if header_width >= body_width { header_width } else { body_width };
    let width = PADDING_HORIZONTAL + wider;
    let height = if has_header {
        PADDING_TOP + HEADER_HEIGHT + SEPARATOR_HEIGHT + body_height + PADDING_BOTTOM
    } else {
        PADDING_TOP + body_height + PADDING_BOTTOM
    };
    (width, height)
}

/// The rows above the body: the header and its line where the first page
/// has a header.
pub fn body_top_offset(has_header: bool) -> (r: u16)
    ensures
        r == if has_header { HEADER_HEIGHT + SEPARATOR_HEIGHT } else { 0 },
{
    if has_header { HEADER_HEIGHT + SEPARATOR_HEIGHT } else { 0 }
}


/// The word a diagnostic's header starts with names its severity.
proof fn lemma_core_starts(d: Diagnostic)
    ensures
        d.severity == Some(Severity::Error) ==> starts_with(header_core(d), "Error ("@),
        d.severity == Some(Severity::Warning) ==> starts_with(header_core(d), "Warning ("@),
        d.severity == Some(Severity::Info) ==> starts_with(header_core(d), "Info ("@),
        d.severity == Some(Severity::Hint) ==> starts_with(header_core(d), "Hint ("@),
        d.severity is None ==> starts_with(header_core(d), "Warning ("@),
{
    reveal_strlit("Error");
    reveal_strlit("Warning");
    reveal_strlit("Info");
    reveal_strlit("Hint");
    reveal_strlit(" (");
    reveal_strlit("Error (");
    reveal_strlit("Warning (");
    reveal_strlit("Info (");
    reveal_strlit("Hint (");
    let sev = match d.severity {
        Some(s) => s,
        None => Severity::Warning,
    };
    let w = severity_text(sev);
    let core = header_core(d);
    let head = w + " ("@;
    assert(core == head + (core.skip(head.len() as int))) by {
        assert(core.take(head.len() as int) == head);
    }
    assert(core.take(head.len() as int) == head);
    assert("Error"@ + " ("@ =~= "Error ("@);
    assert("Warning"@ + " ("@ =~= "Warning ("@);
    assert("Info"@ + " ("@ =~= "Info ("@);
    assert("Hint"@ + " ("@ =~= "Hint ("@);
}

/// Every page header names the diagnostic's severity by its own word
/// (`Error`, `Warning`, `Info`, `Hint`; `Warning` where none is given),
/// right after the bold mark, or after the place `[i/n] ` when there are
/// several diagnostics.
pub proof fn law_header_names_severity(c: DiagnosticContent, d: Diagnostic, idx: int, n: int)
    requires
        is_page_of(c, d, idx, n),
    ensures
        ({
            let h = c.header->0@;
            let p = if n > 1 { "**["@ + decimal((idx + 1) as nat) + "/"@ + decimal(n as nat) + "] "@ } else { "**"@ };
            &&& starts_with(h, p)
            &&& d.severity == Some(Severity::Error) ==> starts_with(h.skip(p.len() as int), "Error ("@)
            &&& d.severity == Some(Severity::Warning) ==> starts_with(h.skip(p.len() as int), "Warning ("@)
            &&& d.severity == Some(Severity::Info) ==> starts_with(h.skip(p.len() as int), "Info ("@)
            &&& d.severity == Some(Severity::Hint) ==> starts_with(h.skip(p.len() as int), "Hint ("@)
            &&& d.severity is None ==> starts_with(h.skip(p.len() as int), "Warning ("@)
        }),
{
    let h = c.header->0@;
    let p = if n > 1 { "**["@ + decimal((idx + 1) as nat) + "/"@ + decimal(n as nat) + "] "@ } else { "**"@ };
    let core = header_core(d);
    assert(h == p + core + "**"@);
    assert(h.take(p.len() as int) == p);
    assert(h.skip(p.len() as int) == core + "**"@);
    lemma_core_starts(d);
    assert forall|w: Seq<char>| starts_with(core, w) implies starts_with(core + "**"@, w) by {
        assert((core + "**"@).take(w.len() as int) == core.take(w.len() as int));
    }
}

} // verus!
