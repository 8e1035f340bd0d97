//! The row of a client: its address menu and what the user enters there.
use vstd::prelude::*;
use vstd::string::{StrSliceExecFns, StringExecFns};
use crate::client::ConnectionMode;
use crate::client_object::{
    entry_views, format_latency, iface_label, kind_label, latency_text, AddrEntry, EntryView,
    LatencyState,
};
use crate::text::{
    copy_texts, decimal, join, joined, push_decimal, same_text, text_view, texts,
};

verus! {

/// How many entries of the menu come before the addresses.
pub const LEADING_ENTRIES: u32 = 2;

/// What follows the address in its menu entry: the interface kind and the
/// latency, or the latency alone where it was measured, or nothing.
pub open spec fn entry_detail(entry: EntryView) -> Seq<char> {
    match kind_label(entry.kind) {
        Some(kind) => kind + " · "@ + latency_text(entry.latency),
        None => if entry.latency is Rtt {
            latency_text(entry.latency)
        } else {
            ""@
        },
    }
}

/// The menu entry of an address: that of the live connection is marked.
pub open spec fn entry_label(entry: EntryView) -> Seq<char> {
    let marked = (if entry.active {
        "● "@
    } else {
        ""@
    }) + entry.ip;
    if entry_detail(entry).len() == 0 {
        marked
    } else {
        marked + " — "@ + entry_detail(entry)
    }
}

pub open spec fn entry_ips(entries: Seq<EntryView>) -> Seq<Seq<char>> {
    entries.map_values(|e: EntryView| e.ip)
}

/// The addresses of the menu: the candidates, and the locked one where it is
/// no candidate.
pub open spec fn menu_ips(entries: Seq<EntryView>, locked: Option<Seq<char>>) -> Seq<Seq<char>> {
    match locked {
        Some(ip) if !entry_ips(entries).contains(ip) => entry_ips(entries).push(ip),
        _ => entry_ips(entries),
    }
}

/// All entries of the menu.
pub open spec fn menu_labels(entries: Seq<EntryView>, locked: Option<Seq<char>>) -> Seq<Seq<char>> {
    let known = seq!["Auto"@, "Fastest"@] + entries.map_values(|e: EntryView| entry_label(e));
    match locked {
        Some(ip) if !entry_ips(entries).contains(ip) => known.push(ip + " — locked"@),
        _ => known,
    }
}

/// Where `ip` first stands among the addresses.
pub open spec fn is_first_index(ips: Seq<Seq<char>>, ip: Seq<char>, i: int) -> bool {
    0 <= i < ips.len() && ips[i] == ip && forall|k: int| 0 <= k < i ==> ips[k] != ip
}

/// The chosen entry: the locked address, or else the base mode.
pub open spec fn is_selected(
    ips: Seq<Seq<char>>,
    mode: ConnectionMode,
    locked: Option<Seq<char>>,
    selected: u32,
) -> bool {
    match locked {
        Some(ip) => exists|i: int| #[trigger]
            is_first_index(ips, ip, i) && selected == (i + LEADING_ENTRIES) as u32,
        None => selected == (match mode {
            ConnectionMode::Auto => 0u32,
            ConnectionMode::Fastest => 1u32,
        }),
    }
}

/// The address menu of a client.
#[derive(Debug, PartialEq, Eq, Clone)]
pub struct AddressMenu {
    pub labels: Vec<String>,
    pub ips: Vec<String>,
    pub selected: u32,
}

impl AddressMenu {
    /// The menu of the given candidates, base mode and lock.
    pub open spec fn is_menu(
        self,
        entries: Seq<EntryView>,
        mode: ConnectionMode,
        locked: Option<Seq<char>>,
    ) -> bool {
        &&& texts(self.labels@) == menu_labels(entries, locked)
        &&& texts(self.ips@) == menu_ips(entries, locked)
        &&& is_selected(menu_ips(entries, locked), mode, locked, self.selected)
    }

    /// All that can be seen of the menu.
    pub open spec fn signature_text(self) -> Seq<char> {
        decimal(self.selected as nat) + "\u{1f}"@ + joined(texts(self.labels@), "\u{1e}"@)
    }

    /// All that can be seen of the menu, as one text.
    pub fn signature(&self) -> (signature: String)
        ensures
            signature@ == self.signature_text(),
    {
        let mut out = String::new();
        push_decimal(&mut out, self.selected as u64);
        out.append("\u{1f}");
        out.append(join(&self.labels, "\u{1e}").as_str());
        assert(out@ =~= self.signature_text());
        out
    }
}

fn label(entry: &AddrEntry) -> (text: String)
    ensures
        text@ == entry_label(entry@),
{
    let mut detail = String::new();
    match iface_label(entry.kind) {
        Some(kind) => {
            detail.append(kind);
            detail.append(" · ");
            detail.append(format_latency(&entry.latency).as_str());
        },
        None => match entry.latency {
            LatencyState::Rtt(_) => detail.append(format_latency(&entry.latency).as_str()),
            _ => {},
        },
    }
    assert(detail@ =~= entry_detail(entry@)) by {
        reveal_strlit("");
    }
    let mut text = String::new();
    if entry.active {
        text.append("● ");
    }
    text.append(entry.ip.as_str());
    if !detail.as_str().is_empty() {
        text.append(" — ");
        text.append(detail.as_str());
    }
    assert(text@ =~= entry_label(entry@)) by {
        reveal_strlit("");
    }
    text
}

/// Where `ip` first stands in the list.
fn first_index(ips: &Vec<String>, ip: &str) -> (index: Option<usize>)
    ensures
        match index {
            Some(i) => is_first_index(texts(ips@), ip@, i as int),
            None => !texts(ips@).contains(ip@),
        },
{
    let mut i: usize = 0;
    while i < ips.len()
        invariant
            i <= ips@.len(),
            forall|k: int| 0 <= k < i ==> texts(ips@)[k] != ip@,
        decreases ips@.len() - i,
    {
        assert(texts(ips@)[i as int] == ips@[i as int]@);
        if same_text(ips[i].as_str(), ip) {
            return Some(i);
        }
        i += 1;
    }
    None
}

/// The address menu: `Auto`, `Fastest`, then the candidates with what is known
/// of them, then the locked address where it is no candidate any more.
pub fn address_menu(
    entries: &Vec<AddrEntry>,
    mode: ConnectionMode,
    locked: &Option<String>,
) -> (menu: AddressMenu)
    ensures
        menu.is_menu(entry_views(entries@), mode, text_view(*locked)),
{
    let mut labels: Vec<String> = Vec::new();
    labels.push("Auto".to_owned());
    labels.push("Fastest".to_owned());
    let mut ips: Vec<String> = Vec::new();
    let mut i: usize = 0;
    let ghost views = entry_views(entries@);
    while i < entries.len()
        invariant
            i <= entries@.len(),
            views == entry_views(entries@),
            labels@.len() == 2 + i,
            labels@[0]@ == "Auto"@,
            labels@[1]@ == "Fastest"@,
            forall|k: int| 0 <= k < i ==> (#[trigger] labels@[k + 2])@ == entry_label(views[k]),
            ips@.len() == i,
            forall|k: int| 0 <= k < i ==> (#[trigger] ips@[k])@ == views[k].ip,
        decreases entries@.len() - i,
    {
        let ghost then = labels@;
        labels.push(label(&entries[i]));
        ips.push(entries[i].ip.clone());
        assert forall|k: int| 0 <= k < i + 1 implies (#[trigger] labels@[k + 2])@ == entry_label(
            views[k],
        ) by {
            if k < i {
                assert(labels@[k + 2] == then[k + 2]);
            }
        }
        i += 1;
    }
    proof {
        let known = seq!["Auto"@, "Fastest"@] + views.map_values(|e: EntryView| entry_label(e));
        assert forall|k: int| 0 <= k < known.len() implies known[k] == texts(labels@)[k] by {
            if k >= 2 {
                assert(labels@[(k - 2) + 2]@ == entry_label(views[k - 2]));
            }
        }
        assert(texts(labels@) =~= known);
        assert(texts(ips@) =~= entry_ips(views));
    }
    let mut selected: u32 = match mode {
        ConnectionMode::Auto => 0,
        ConnectionMode::Fastest => 1,
    };
    if let Some(ip) = locked {
        let ghost label_texts = texts(labels@);
        let ghost ip_list = texts(ips@);
        let index: usize = match first_index(&ips, ip.as_str()) {
            Some(i) => i,
            None => {
                let mut text = ip.clone();
                text.append(" — locked");
                labels.push(text);
                ips.push(ip.clone());
                proof {
                    assert(texts(labels@) =~= label_texts.push(ip@ + " — locked"@));
                    assert(texts(ips@) =~= ip_list.push(ip@));
                    assert forall|k: int| 0 <= k < ip_list.len() implies texts(ips@)[k]
                        != ip@ by {
                        assert(ip_list[k] == texts(ips@)[k]);
                        assert(ip_list.contains(ip_list[k]));
                    }
                    assert(is_first_index(texts(ips@), ip@, ip_list.len() as int));
                }
                ips.len() - 1
            },
        };
        proof {
            assert(is_first_index(texts(ips@), ip@, index as int));
            if texts(ips@) == ip_list {
                assert(ip_list.contains(ip@)) by {
                    assert(ip_list[index as int] == ip@);
                }
            }
        }
        selected = ((index as u128) + LEADING_ENTRIES as u128) as u32;
    }
    AddressMenu { labels, ips, selected }
}

/// The menu of a row as it was last shown.
#[derive(Debug)]
pub struct ClientRow {
    address_select_ips: Vec<String>,
    address_signature: Option<String>,
}

/// `menu` and `after` are what becomes of a row whose menu is brought up to
/// date.
pub open spec fn menu_updates(
    before: ClientRow,
    entries: Seq<EntryView>,
    mode: ConnectionMode,
    locked: Option<Seq<char>>,
    menu: Option<AddressMenu>,
    after: ClientRow,
) -> bool {
    match menu {
        Some(m) => m.is_menu(entries, mode, locked) && after.ips() == texts(m.ips@)
            && after.shown() == Some(m.signature_text()) && before.shown() != Some(
            m.signature_text(),
        ),
        None => after == before && exists|m: AddressMenu| #[trigger]
            m.is_menu(entries, mode, locked) && before.shown() == Some(m.signature_text()),
    }
}

impl ClientRow {
    /// The addresses of the menu.
    pub closed spec fn ips(self) -> Seq<Seq<char>> {
        texts(self.address_select_ips@)
    }

    /// What can be seen of the menu, where one was shown.
    pub closed spec fn shown(self) -> Option<Seq<char>> {
        text_view(self.address_signature)
    }

    /// A row that shows no menu.
    pub fn new() -> (row: ClientRow)
        ensures
            row.shown() is None,
            row.ips() == Seq::<Seq<char>>::empty(),
    {
        let row = ClientRow { address_select_ips: Vec::new(), address_signature: None };
        assert(row.ips() =~= Seq::<Seq<char>>::empty());
        row
    }

    /// Brings the menu up to date. Returns the menu to be shown: none where it
    /// would look as it does, so that an open menu is left in peace.
    pub fn set_addresses(
        &mut self,
        entries: &Vec<AddrEntry>,
        mode: ConnectionMode,
        locked: &Option<String>,
    ) -> (menu: Option<AddressMenu>)
        ensures
            menu_updates(
                *old(self),
                entry_views(entries@),
                mode,
                text_view(*locked),
                menu,
                *final(self),
            ),
    {
        let menu = address_menu(entries, mode, locked);
        let signature = menu.signature();
        let same: bool = match &self.address_signature {
            Some(shown) => same_text(shown.as_str(), signature.as_str()),
            None => false,
        };
        if same {
            assert(menu.is_menu(entry_views(entries@), mode, text_view(*locked)));
            return None;
        }
        self.address_signature = Some(signature);
        self.address_select_ips = copy_texts(&menu.ips);
        Some(menu)
    }

    /// What the entry with the given index asks for: `auto`, `fastest` or an
    /// address. An index beyond the menu asks for `auto`.
    pub open spec fn choice_text(self, index: u32) -> Seq<char> {
        if index == 1 {
            "fastest"@
        } else if index >= LEADING_ENTRIES && index - LEADING_ENTRIES < self.ips().len() {
            self.ips()[index - LEADING_ENTRIES]
        } else {
            "auto"@
        }
    }

    /// What the user asks for by choosing an entry of the menu.
    pub fn connection_choice(&self, index: u32) -> (choice: String)
        ensures
            choice@ == self.choice_text(index),
    {
        if index == 0 {
            "auto".to_owned()
        } else if index == 1 {
            "fastest".to_owned()
        } else {
            let at: usize = (index - LEADING_ENTRIES) as usize;
            if at < self.address_select_ips.len() {
                self.address_select_ips[at].clone()
            } else {
                "auto".to_owned()
            }
        }
    }
}

/// Choosing the entry of an address asks for that address.
pub proof fn law_menu_entries_choose_their_address(
    row: ClientRow,
    entries: Seq<EntryView>,
    mode: ConnectionMode,
    locked: Option<Seq<char>>,
    menu: AddressMenu,
    i: int,
)
    requires
        menu.is_menu(entries, mode, locked),
        row.ips() == texts(menu.ips@),
        0 <= i < menu.ips@.len(),
        i + LEADING_ENTRIES <= u32::MAX,
    ensures
        menu.labels@.len() == menu.ips@.len() + LEADING_ENTRIES,
        row.choice_text((i + LEADING_ENTRIES) as u32) == menu.ips@[i]@,
        row.choice_text(0) == "auto"@,
        row.choice_text(1) == "fastest"@,
{
    assert(texts(menu.labels@).len() == menu_labels(entries, locked).len());
    assert(texts(menu.ips@).len() == menu_ips(entries, locked).len());
    assert(texts(menu.ips@)[i] == menu.ips@[i]@);
}

/// A character that is a decimal digit.
pub open spec fn is_digit(c: char) -> bool {
    '0' <= c <= '9'
}

/// The number that decimal digits spell.
pub open spec fn digits_value(digits: Seq<char>) -> nat
    decreases digits.len(),
{
    if digits.len() == 0 {
        0
    } else {
        digits_value(digits.drop_last()) * 10 + (digits.last() as nat - '0' as nat) as nat
    }
}

/// The digits of a number: all of the text but a leading plus sign.
pub open spec fn unsigned_part(text: Seq<char>) -> Seq<char> {
    if text.len() > 0 && text[0] == '+' {
        text.skip(1)
    } else {
        text
    }
}

/// The port that a text names, where it names one.
pub open spec fn port_of(text: Seq<char>) -> Option<u16> {
    let digits = unsigned_part(text);
    if digits.len() > 0 && (forall|i: int| 0 <= i < digits.len() ==> is_digit(#[trigger] digits[i]))
        && digits_value(digits) <= u16::MAX {
        Some(digits_value(digits) as u16)
    } else {
        None
    }
}

proof fn lemma_digits_value_grows(digits: Seq<char>, n: int)
    requires
        0 <= n <= digits.len(),
    ensures
        digits_value(digits.take(n)) <= digits_value(digits),
    decreases digits.len() - n,
{
    if n < digits.len() {
        lemma_digits_value_grows(digits, n + 1);
        assert(digits.take(n + 1).drop_last() =~= digits.take(n));
    } else {
        assert(digits.take(n) =~= digits);
    }
}

/// The port that the user entered: none where the text is no number of a port.
pub fn parse_port(text: &str) -> (port: Option<u16>)
    ensures
        port == port_of(text@),
{
    let len: usize = text.unicode_len();
    let start: usize = if len > 0 && text.get_char(0) == '+' {
        1
    } else {
        0
    };
    let ghost digits = unsigned_part(text@);
    if start == len {
        return None;
    }
    let mut value: u32 = 0;
    let mut i: usize = start;
    while i < len
        invariant
            start <= i <= len,
            start <= 1,
            len == text@.len(),
            digits == unsigned_part(text@),
            digits.len() == len - start,
            forall|k: int| 0 <= k < digits.len() ==> digits[k] == text@[k + start],
            value == digits_value(digits.take(i - start)),
            value <= u16::MAX,
            forall|k: int| 0 <= k < i - start ==> is_digit(#[trigger] digits[k]),
        decreases len - i,
    {
        let c: char = text.get_char(i);
        assert(c == digits[i - start]);
        if !('0' <= c && c <= '9') {
            return None;
        }
        proof {
            assert(digits.take(i - start + 1).drop_last() =~= digits.take(i - start));
            assert(digits.take(i - start + 1).last() == c);
        }
        value = value * 10 + (c as u32 - '0' as u32);
        if value > u16::MAX as u32 {
            proof {
                lemma_digits_value_grows(digits, i - start + 1);
            }
            return None;
        }
        i += 1;
    }
    assert(digits.take(i - start) =~= digits);
    Some(value as u16)
}

/// The style class of the button that resolves a client's name.
pub open spec fn dns_class(resolved: bool) -> Seq<char> {
    if resolved {
        "success"@
    } else {
        "warning"@
    }
}

/// The style class of the button that resolves a client's name.
pub fn dns_button_class(resolved: bool) -> (class: &'static str)
    ensures
        class@ == dns_class(resolved),
{
    if resolved {
        "success"
    } else {
        "warning"
    }
}

/// What the user does in a row.
#[derive(Debug)]
pub enum RowEvent {
    DeleteClicked,
    DnsClicked,
    HostnameChanged(String),
    /// With the text of the entry.
    PortChanged(String),
    /// With the index of the position.
    PositionSelected(u32),
    EnableSwitched(bool),
    ClipboardSendSwitched(bool),
    /// With the index of the entry in the address menu.
    AddressSelected(u32),
}

/// What a row asks the window for.
#[derive(Debug)]
pub enum RowRequest {
    Delete,
    Dns,
    HostnameChange(String),
    PortChange(u32),
    PositionChange(u32),
    Activate(bool),
    ClipboardSendChange(bool),
    /// `auto`, `fastest` or an address.
    ConnectionChoice(String),
}

/// `request` is what an event in the row leads to: nothing where a port is not
/// a number.
pub open spec fn asks_for(row: ClientRow, event: RowEvent, request: Option<RowRequest>) -> bool {
    match event {
        RowEvent::DeleteClicked => request == Some(RowRequest::Delete),
        RowEvent::DnsClicked => request == Some(RowRequest::Dns),
        RowEvent::HostnameChanged(name) => request == Some(RowRequest::HostnameChange(name)),
        RowEvent::PortChanged(text) => request == (match port_of(text@) {
            Some(port) => Some(RowRequest::PortChange(port as u32)),
            None => None,
        }),
        RowEvent::PositionSelected(index) => request == Some(RowRequest::PositionChange(index)),
        RowEvent::EnableSwitched(on) => request == Some(RowRequest::Activate(on)),
        RowEvent::ClipboardSendSwitched(on) => request == Some(
            RowRequest::ClipboardSendChange(on),
        ),
        RowEvent::AddressSelected(index) => request matches Some(
            RowRequest::ConnectionChoice(choice),
        ) && choice@ == row.choice_text(index),
    }
}

impl ClientRow {
    /// What an event in the row leads to.
    pub fn request(&self, event: RowEvent) -> (request: Option<RowRequest>)
        ensures
            asks_for(*self, event, request),
    {
        match event {
            RowEvent::DeleteClicked => Some(RowRequest::Delete),
            RowEvent::DnsClicked => Some(RowRequest::Dns),
            RowEvent::HostnameChanged(name) => Some(RowRequest::HostnameChange(name)),
            RowEvent::PortChanged(text) => match parse_port(text.as_str()) {
                Some(port) => Some(RowRequest::PortChange(port as u32)),
                None => None,
            },
            RowEvent::PositionSelected(index) => Some(RowRequest::PositionChange(index)),
            RowEvent::EnableSwitched(on) => Some(RowRequest::Activate(on)),
            RowEvent::ClipboardSendSwitched(on) => Some(RowRequest::ClipboardSendChange(on)),
            RowEvent::AddressSelected(index) => Some(
                RowRequest::ConnectionChoice(self.connection_choice(index)),
            ),
        }
    }
}

/// The menu offers the automatic mode, the fastest one, and every candidate
/// address in order, with the locked one at the end where it is none. What is
/// set is what is selected.
pub proof fn law_menus_offer_what_there_is(
    menu: AddressMenu,
    entries: Seq<EntryView>,
    mode: ConnectionMode,
    locked: Option<Seq<char>>,
    i: int,
)
    requires
        menu.is_menu(entries, mode, locked),
        entries.len() < 0xffff_0000,
    ensures
        menu.labels@.len() == menu.ips@.len() + 2,
        menu.labels@[0]@ == "Auto"@,
        menu.labels@[1]@ == "Fastest"@,
        entries.len() <= menu.ips@.len() <= entries.len() + 1,
        0 <= i < entries.len() ==> menu.ips@[i]@ == entries[i].ip,
        menu.ips@.len() > entries.len() ==> locked == Some(menu.ips@[entries.len() as int]@)
            && menu.labels@[entries.len() as int + 2]@ == locked->0 + " — locked"@ && (0 <= i
            < entries.len() ==> entries[i].ip != locked->0),
        match locked {
            Some(ip) => 2 <= menu.selected < menu.ips@.len() + 2 && menu.ips@[menu.selected - 2]@
                == ip,
            None => menu.selected == (if mode is Auto {
                0u32
            } else {
                1u32
            }),
        },
{
    let ips = menu_ips(entries, locked);
    let labels = menu_labels(entries, locked);
    assert(texts(menu.ips@) == ips);
    assert(texts(menu.labels@) == labels);
    assert(menu.labels@.len() == texts(menu.labels@).len());
    assert(menu.labels@.len() == labels.len());
    assert(menu.ips@.len() == texts(menu.ips@).len());
    assert(labels[0] == "Auto"@ && labels[1] == "Fastest"@);
    assert(texts(menu.labels@)[0] == menu.labels@[0]@);
    assert(texts(menu.labels@)[1] == menu.labels@[1]@);
    if 0 <= i < entries.len() {
        assert(ips[i] == entries[i].ip);
        assert(texts(menu.ips@)[i] == menu.ips@[i]@);
        assert(entry_ips(entries)[i] == entries[i].ip);
        assert(entry_ips(entries).contains(entries[i].ip));
    }
    if menu.ips@.len() > entries.len() {
        let n = entries.len() as int;
        assert(texts(menu.ips@)[n] == menu.ips@[n]@);
        assert(texts(menu.labels@)[n + 2] == menu.labels@[n + 2]@);
    }
    if let Some(ip) = locked {
        let k = choose|k: int| #[trigger]
            is_first_index(ips, ip, k) && menu.selected == (k + LEADING_ENTRIES) as u32;
        assert(texts(menu.ips@)[k] == menu.ips@[k]@);
    }
}

/// Choosing the entry that is selected asks for what is set already.
pub proof fn law_the_selected_entry_is_what_is_set(
    row: ClientRow,
    menu: AddressMenu,
    entries: Seq<EntryView>,
    mode: ConnectionMode,
    locked: Option<Seq<char>>,
)
    requires
        menu.is_menu(entries, mode, locked),
        entries.len() < 0xffff_0000,
        row.ips() == texts(menu.ips@),
    ensures
        row.choice_text(menu.selected) == (match locked {
            Some(ip) => ip,
            None => if mode is Auto {
                "auto"@
            } else {
                "fastest"@
            },
        }),
{
    law_menus_offer_what_there_is(menu, entries, mode, locked, 0);
    if locked is Some {
        assert(texts(menu.ips@)[menu.selected - 2] == menu.ips@[menu.selected - 2]@);
    }
}

/// An address is shown with a mark where the connection runs, with its interface
/// and latency where the interface is known, and with its latency alone where
/// only that was measured.
pub proof fn law_entries_are_labelled(ip: Seq<char>, latency: LatencyState, us: u32)
    ensures
        ({
            let plain = EntryView { ip, latency, active: false, kind: None };
            let live = EntryView { active: true, ..plain };
            let timed = EntryView { latency: LatencyState::Rtt(us), ..plain };
            let wired = EntryView { kind: Some(crate::network::IfaceKind::Wired), ..plain };
            let wireless = EntryView { kind: Some(crate::network::IfaceKind::WiFi), ..plain };
            &&& !(latency is Rtt) ==> entry_label(plain) == ip
            &&& entry_label(timed) == ip + " — "@ + latency_text(LatencyState::Rtt(us))
            &&& entry_label(wired) == ip + " — "@ + ("Wired"@ + " · "@ + latency_text(latency))
            &&& entry_label(wireless) == ip + " — "@ + ("Wi-Fi"@ + " · "@ + latency_text(latency))
            &&& entry_label(live) == "● "@ + entry_label(plain)
            &&& entry_label(EntryView { active: true, ..wired }) == "● "@ + entry_label(wired)
        }),
{
    reveal_strlit("");
    reveal_strlit("Wired");
    reveal_strlit("Wi-Fi");
    reveal_strlit(" ms");
    let plain = EntryView { ip, latency, active: false, kind: None };
    let live = EntryView { active: true, ..plain };
    let timed = EntryView { latency: LatencyState::Rtt(us), ..plain };
    let wired = EntryView { kind: Some(crate::network::IfaceKind::Wired), ..plain };
    let wireless = EntryView { kind: Some(crate::network::IfaceKind::WiFi), ..plain };
    let lively = EntryView { active: true, ..wired };
    assert(""@ + ip =~= ip);
    assert(latency_text(LatencyState::Rtt(us)).len() > 0);
    assert(entry_label(plain) =~= if latency is Rtt {
        ip + " — "@ + latency_text(latency)
    } else {
        ip
    });
    assert(entry_label(live) =~= "● "@ + entry_label(plain));
    assert(entry_label(timed) =~= ip + " — "@ + latency_text(LatencyState::Rtt(us)));
    assert(entry_label(wired) =~= ip + " — "@ + ("Wired"@ + " · "@ + latency_text(latency)));
    assert(entry_label(wireless) =~= ip + " — "@ + ("Wi-Fi"@ + " · "@ + latency_text(latency)));
    assert(entry_label(lively) =~= "● "@ + entry_label(wired));
}

/// A menu that would look as it does is left in peace: asking for the same again
/// changes nothing.
pub proof fn law_unchanged_menus_are_left_in_peace(
    before: ClientRow,
    entries: Seq<EntryView>,
    mode: ConnectionMode,
    locked: Option<Seq<char>>,
    first: Option<AddressMenu>,
    between: ClientRow,
    second: Option<AddressMenu>,
    after: ClientRow,
)
    requires
        menu_updates(before, entries, mode, locked, first, between),
        menu_updates(between, entries, mode, locked, second, after),
    ensures
        second is None,
        after == between,
        before.shown() is None ==> first is Some,
        first matches Some(m) ==> m.is_menu(entries, mode, locked) && between.ips() == texts(
            m.ips@,
        ),
{
    if let Some(m) = second {
        let old = match first {
            Some(shown) => shown,
            None => choose|shown: AddressMenu| #[trigger]
                shown.is_menu(entries, mode, locked) && before.shown() == Some(
                    shown.signature_text(),
                ),
        };
        if let Some(ip) = locked {
            let ips = menu_ips(entries, locked);
            let a = choose|a: int| #[trigger]
                is_first_index(ips, ip, a) && old.selected == (a + LEADING_ENTRIES) as u32;
            let b = choose|b: int| #[trigger]
                is_first_index(ips, ip, b) && m.selected == (b + LEADING_ENTRIES) as u32;
            assert(a == b);
        }
        assert(old.signature_text() == m.signature_text());
    }
}

/// Every port can be entered as its number, and nothing else is a port: no text
/// with anything but digits behind a plus sign at most, and no larger number.
pub proof fn law_ports_are_entered_as_numbers(port: u16, text: Seq<char>, i: int, n: nat)
    ensures
        port_of(decimal(port as nat)) == Some(port),
        0 <= i < text.len() && !('0' <= text[i] <= '9') && !(i == 0 && text[i] == '+') ==> port_of(
            text,
        ) is None,
        text.len() == 0 ==> port_of(text) is None,
        n > 65_535 ==> port_of(decimal(n)) is None,
{
    lemma_decimal_value(port as nat);
    lemma_decimal_value(n);
    assert(unsigned_part(decimal(port as nat)) == decimal(port as nat));
    assert(unsigned_part(decimal(n)) == decimal(n));
    if 0 <= i < text.len() && !('0' <= text[i] <= '9') && !(i == 0 && text[i] == '+') {
        let digits = unsigned_part(text);
        if text[0] == '+' {
            assert(digits[i - 1] == text[i]);
            assert(!is_digit(digits[i - 1]));
        } else {
            assert(!is_digit(digits[i]));
        }
    }
}

proof fn lemma_decimal_value(n: nat)
    ensures
        digits_value(decimal(n)) == n,
        decimal(n).len() > 0,
        decimal(n)[0] != '+',
        forall|i: int| 0 <= i < decimal(n).len() ==> is_digit(#[trigger] decimal(n)[i]),
    decreases n,
{
    crate::text::law_decimals_spell_the_number(n, n);
    assert(crate::text::digit_char(n % 10) as nat == 0x30 + n % 10);
    if n < 10 {
        assert(decimal(n).drop_last() =~= Seq::<char>::empty());
        reveal_with_fuel(digits_value, 2);
    } else {
        lemma_decimal_value(n / 10);
        assert(decimal(n).drop_last() =~= decimal(n / 10));
    }
}

/// What the user does in a row is what is asked for, with the value that the
/// user gave.
pub proof fn law_rows_ask_for_what_is_done(
    row: ClientRow,
    event: RowEvent,
    request: Option<RowRequest>,
)
    requires
        asks_for(row, event, request),
    ensures
        event is DeleteClicked <==> request matches Some(RowRequest::Delete),
        event is DnsClicked <==> request matches Some(RowRequest::Dns),
        event matches RowEvent::HostnameChanged(a) ==> request == Some(
            RowRequest::HostnameChange(a),
        ),
        event matches RowEvent::EnableSwitched(a) ==> request == Some(RowRequest::Activate(a)),
        event matches RowEvent::ClipboardSendSwitched(a) ==> request == Some(
            RowRequest::ClipboardSendChange(a),
        ),
        event matches RowEvent::PositionSelected(a) ==> request == Some(
            RowRequest::PositionChange(a),
        ),
        event matches RowEvent::PortChanged(a) ==> (request is Some <==> port_of(a@) is Some) && (
        request is Some ==> request == Some(RowRequest::PortChange(port_of(a@)->0 as u32))),
        request is None ==> event is PortChanged,
        event is AddressSelected <==> request matches Some(RowRequest::ConnectionChoice(_)),
{
}

/// An entry that the menu does not have asks for the automatic mode.
pub proof fn law_entries_beyond_the_menu_mean_auto(row: ClientRow, index: u32)
    requires
        index >= row.ips().len() + 2,
    ensures
        row.choice_text(index) == "auto"@,
{
}

/// A name that is resolved is marked as a success, and one that is not as a
/// warning.
pub proof fn law_resolved_names_are_marked()
    ensures
        dns_class(true) == "success"@,
        dns_class(false) == "warning"@,
{
}

} // verus!
