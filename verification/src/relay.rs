//! Plugin-to-plugin relay: which peers have announced the pet plugin, and
//! what to do with a message from one.

use vstd::prelude::*;
use crate::text::chars_of;

verus! {

/// Relay channel the pet plugin talks on.
pub const RELAY_CHANNEL: u8 = 211;

// ---------------------------------------------------------------------------
// Versions
// ---------------------------------------------------------------------------

/// The pieces of `s` between `.` separators, as `str::split('.')` yields them.
pub open spec fn split_dots(s: Seq<char>) -> Seq<Seq<char>>
    decreases s.len(),
{
    if s.len() == 0 {
        seq![Seq::empty()]
    } else {
        let rest = split_dots(s.drop_last());
        if s.last() == '.' {
            rest.push(Seq::empty())
        } else {
            rest.update(rest.len() - 1, rest.last().push(s.last()))
        }
    }
}

proof fn lemma_split_dots_nonempty(s: Seq<char>)
    ensures
        split_dots(s).len() >= 1,
    decreases s.len(),
{
    if s.len() > 0 {
        lemma_split_dots_nonempty(s.drop_last());
    }
}

/// An ASCII decimal digit.
pub open spec fn is_digit(c: char) -> bool {
    '0' <= c && c <= '9'
}

/// Every character of `d` is a decimal digit.
pub open spec fn all_digits(d: Seq<char>) -> bool {
    forall|i: int| 0 <= i < d.len() ==> is_digit(#[trigger] d[i])
}

/// `s` without one leading `+`.
pub open spec fn unsigned_digits(s: Seq<char>) -> Seq<char> {
    if s.len() > 0 && s[0] == '+' {
        s.drop_first()
    } else {
        s
    }
}

/// The value of a run of decimal digits.
pub open spec fn digits_value(d: Seq<char>) -> int
    decreases d.len(),
{
    if d.len() == 0 {
        0
    } else {
        digits_value(d.drop_last()) * 10 + (d.last() as int - '0' as int)
    }
}

/// What `str::parse::<u32>` makes of `s`: an optional `+` followed by at
/// least one decimal digit, whose value fits `u32`.
pub open spec fn parsed_u32(s: Seq<char>) -> Option<u32> {
    let d = unsigned_digits(s);
    if d.len() == 0 || !all_digits(d) || digits_value(d) > u32::MAX {
        None
    } else {
        Some(digits_value(d) as u32)
    }
}

/// A version `major.minor.patch`: the first three dot-separated pieces,
/// each a `u32` (pieces after the third are ignored).
pub open spec fn parsed_version(s: Seq<char>) -> Option<(u32, u32, u32)> {
    let p = split_dots(s);
    if p.len() < 3 {
        None
    } else {
        match (parsed_u32(p[0]), parsed_u32(p[1]), parsed_u32(p[2])) {
            (Some(a), Some(b), Some(c)) => Some((a, b, c)),
            _ => None,
        }
    }
}

/// Lexicographic "newer than" on versions.
pub open spec fn version_newer(a: (u32, u32, u32), b: (u32, u32, u32)) -> bool {
    a.0 > b.0 || (a.0 == b.0 && (a.1 > b.1 || (a.1 == b.1 && a.2 > b.2)))
}

proof fn lemma_digits_value_prefix(d: Seq<char>, j: int)
    requires
        0 <= j <= d.len(),
        forall|i: int| 0 <= i < d.len() ==> is_digit(#[trigger] d[i]),
    ensures
        0 <= digits_value(d.take(j)) <= digits_value(d),
    decreases d.len(),
{
    if d.len() > 0 {
        assert forall|i: int| 0 <= i < d.drop_last().len() implies is_digit(
            #[trigger] d.drop_last()[i],
        ) by {
            assert(d.drop_last()[i] == d[i]);
        }
        assert(is_digit(d[d.len() - 1]));
        if j == d.len() {
            assert(d.take(j) =~= d);
            lemma_digits_value_prefix(d.drop_last(), 0);
        } else {
            assert(d.drop_last().take(j) =~= d.take(j));
            lemma_digits_value_prefix(d.drop_last(), j);
        }
    } else {
        assert(d.take(j) =~= d);
    }
}

/// `str::parse::<u32>` of the characters `d`.
fn parse_u32_chars(d: &Vec<char>) -> (r: Option<u32>)
    ensures
        r == parsed_u32(d@),
{
    let n = d.len();
    let start: usize = if n > 0 && d[0] == '+' {
        1
    } else {
        0
    };
    let ghost digits = unsigned_digits(d@);
    assert(digits =~= d@.skip(start as int));
    if start == n {
        return None;
    }
    let mut v: u64 = 0;
    let mut i: usize = start;
    while i < n
        invariant
            start <= i <= n,
            n == d@.len(),
            digits == d@.skip(start as int),
            digits == unsigned_digits(d@),
            forall|k: int| 0 <= k < i - start ==> is_digit(#[trigger] digits[k]),
            v == digits_value(digits.take(i - start)),
            v <= u32::MAX,
        decreases n - i,
    {
        let c = d[i];
        if !('0' <= c && c <= '9') {
            assert(!is_digit(digits[i - start]));
            assert(!all_digits(digits));
            return None;
        }
        let dv: u64 = (c as u32 - '0' as u32) as u64;
        assert(digits.take(i + 1 - start).drop_last() =~= digits.take(i - start));
        assert(digits[i - start] == c);
        assert(digits.take(i + 1 - start).last() == c);
        assert(digits_value(digits.take(i + 1 - start)) == digits_value(digits.take(i - start)) * 10
            + (c as int - '0' as int));
        v = v * 10 + dv;
        if v > u32::MAX as u64 {
            proof {
                if all_digits(digits) {
                    lemma_digits_value_prefix(digits, i + 1 - start);
                }
            }
            return None;
        }
        i = i + 1;
    }
    assert(digits.take(n - start) =~= digits);
    Some(v as u32)
}

/// Pieces of characters as texts.
pub open spec fn pieces_view(v: Seq<Vec<char>>) -> Seq<Seq<char>> {
    v.map_values(|p: Vec<char>| p@)
}

/// Split `s` at every `.`.
fn split_on_dots(s: &str) -> (pieces: Vec<Vec<char>>)
    ensures
        pieces_view(pieces@) == split_dots(s@),
{
    let c = chars_of(s);
    let mut pieces: Vec<Vec<char>> = Vec::new();
    pieces.push(Vec::new());
    assert(pieces_view(pieces@) =~= split_dots(s@.take(0)));
    let mut i: usize = 0;
    while i < c.len()
        invariant
            c@ == s@,
            i <= c@.len(),
            pieces@.len() >= 1,
            pieces_view(pieces@) == split_dots(s@.take(i as int)),
        decreases c@.len() - i,
    {
        assert(s@.take(i + 1).drop_last() =~= s@.take(i as int));
        assert(s@.take(i + 1).last() == c@[i as int]);
        if c[i] == '.' {
            pieces.push(Vec::new());
            assert(pieces_view(pieces@) =~= split_dots(s@.take(i + 1)));
        } else {
            let mut last = pieces.pop().unwrap();
            last.push(c[i]);
            pieces.push(last);
            assert(pieces_view(pieces@) =~= split_dots(s@.take(i + 1)));
        }
        i = i + 1;
    }
    assert(s@.take(c@.len() as int) =~= s@);
    pieces
}

/// Parse `major.minor.patch`; `None` unless the first three dot-separated
/// pieces are all `u32` numbers.
pub fn parse_version(s: &str) -> (r: Option<(u32, u32, u32)>)
    ensures
        r == parsed_version(s@),
{
    let pieces = split_on_dots(s);
    if pieces.len() < 3 {
        return None;
    }
    assert(pieces@[0]@ == split_dots(s@)[0]);
    assert(pieces@[1]@ == split_dots(s@)[1]);
    assert(pieces@[2]@ == split_dots(s@)[2]);
    let major = match parse_u32_chars(&pieces[0]) {
        Some(v) => v,
        None => {
            return None;
        },
    };
    let minor = match parse_u32_chars(&pieces[1]) {
        Some(v) => v,
        None => {
            return None;
        },
    };
    let patch = match parse_u32_chars(&pieces[2]) {
        Some(v) => v,
        None => {
            return None;
        },
    };
    Some((major, minor, patch))
}

/// Whether version text `theirs` is newer than `ours`; `false` when either
/// does not parse.
pub open spec fn newer_version(theirs: Seq<char>, ours: Seq<char>) -> bool {
    match (parsed_version(theirs), parsed_version(ours)) {
        (Some(t), Some(m)) => version_newer(t, m),
        _ => false,
    }
}

/// Whether version text `theirs` is newer than `ours`; `false` when either
/// does not parse.
pub fn is_newer_version(theirs: &str, ours: &str) -> (r: bool)
    ensures
        r == newer_version(theirs@, ours@),
{
    match (parse_version(theirs), parse_version(ours)) {
        (Some(t), Some(m)) => t.0 > m.0 || (t.0 == m.0 && (t.1 > m.1 || (t.1 == m.1 && t.2
            > m.2))),
        _ => false,
    }
}

// ---------------------------------------------------------------------------
// Peers
// ---------------------------------------------------------------------------

/// The real names of peers known to run the pet plugin.
pub struct SeenPlugins {
    names: Vec<String>,
}

impl View for SeenPlugins {
    type V = Set<Seq<char>>;

    closed spec fn view(&self) -> Set<Seq<char>> {
        Set::new(|k: Seq<char>| exists|i: int| 0 <= i < self.names@.len() && self.names@[i]@ == k)
    }
}

impl SeenPlugins {
    /// No duplicate names.
    pub closed spec fn wf(&self) -> bool {
        forall|i: int, j: int|
            0 <= i < self.names@.len() && 0 <= j < self.names@.len() && i != j
                ==> self.names@[i]@ != self.names@[j]@
    }

    /// Nobody seen yet.
    pub fn new() -> (s: SeenPlugins)
        ensures
            s.wf(),
            s@ == Set::<Seq<char>>::empty(),
    {
        let s = SeenPlugins { names: Vec::new() };
        assert(s@ =~= Set::<Seq<char>>::empty());
        s
    }

    /// Whether a peer with this real name has announced the plugin.
    pub fn has_plugin(&self, real_name: &str) -> (r: bool)
        ensures
            r == self@.contains(real_name@),
    {
        let mut i: usize = 0;
        while i < self.names.len()
            invariant
                i <= self.names@.len(),
                forall|j: int| 0 <= j < i ==> self.names@[j]@ != real_name@,
            decreases self.names@.len() - i,
        {
            if crate::text::str_eq(self.names[i].as_str(), real_name) {
                assert(self.names@[i as int]@ == real_name@);
                return true;
            }
            i = i + 1;
        }
        false
    }

    /// Record a peer; `true` when it was not known before.
    pub fn insert(&mut self, real_name: String) -> (is_new: bool)
        requires
            old(self).wf(),
        ensures
            final(self).wf(),
            is_new == !old(self)@.contains(real_name@),
            final(self)@ == old(self)@.insert(real_name@),
    {
        if self.has_plugin(real_name.as_str()) {
            assert(self@ =~= old(self)@.insert(real_name@));
            return false;
        }
        let ghost k = real_name@;
        self.names.push(real_name);
        proof {
            assert forall|x: Seq<char>| #[trigger] self@.contains(x) == old(self)@.insert(
                k,
            ).contains(x) by {
                if old(self)@.contains(x) {
                    let i = choose|i: int|
                        0 <= i < old(self).names@.len() && old(self).names@[i]@ == x;
                    assert(self.names@[i]@ == x);
                }
                if x == k {
                    assert(self.names@[self.names@.len() - 1]@ == x);
                }
                if self@.contains(x) {
                    let i = choose|i: int| 0 <= i < self.names@.len() && self.names@[i]@ == x;
                    if i < old(self).names@.len() {
                        assert(old(self).names@[i]@ == x);
                    }
                }
            }
            assert(self@ =~= old(self)@.insert(k));
        }
        true
    }

    /// Forget every peer (new server or free).
    pub fn clear(&mut self)
        ensures
            final(self).wf(),
            final(self)@ == Set::<Seq<char>>::empty(),
    {
        self.names = Vec::new();
        assert(self@ =~= Set::<Seq<char>>::empty());
    }
}

// ---------------------------------------------------------------------------
// Receiving
// ---------------------------------------------------------------------------

/// A decoded relay message, as far as the decision needs it.
pub enum RelayPayload {
    /// A peer announces the plugin and its version.
    Hello { version: String },
    /// A peer's pet state (not acted on yet).
    PetState,
}

/// Why a relay message was refused.
#[derive(Clone, Copy, PartialEq, Eq, Structural, Debug)]
pub enum ReceiveError {
    /// The message claims to come from the local player.
    FromSelf,
    /// The message bytes do not decode.
    Undecodable,
}

/// What to do about an accepted relay message.
#[derive(Clone, Copy, PartialEq, Eq, Structural, Debug)]
pub struct ReceiveOutcome {
    /// Say in chat that the sender has the pet plugin (first message from it).
    pub announce: bool,
    /// Say in chat that the sender runs a newer version.
    pub newer_version: bool,
    /// Re-broadcast our own state so the newcomer knows about us.
    pub rebroadcast: bool,
}

/// The outcome that asks for nothing.
pub open spec fn no_outcome() -> ReceiveOutcome {
    ReceiveOutcome { announce: false, newer_version: false, rebroadcast: false }
}

/// Abstract form of a relay message.
pub enum RelayPayloadView {
    Hello { version: Seq<char> },
    PetState,
}

impl View for RelayPayload {
    type V = RelayPayloadView;

    open spec fn view(&self) -> RelayPayloadView {
        match self {
            RelayPayload::Hello { version } => RelayPayloadView::Hello { version: version@ },
            RelayPayload::PetState => RelayPayloadView::PetState,
        }
    }
}

/// How the seen-set changes and what is answered when a relay message
/// arrives from `player_id` (`msg` is `None` when its bytes do not decode,
/// `sender` is `None` when the sender's real name cannot be resolved).
pub open spec fn receive(
    seen: Set<Seq<char>>,
    player_id: u8,
    msg: Option<RelayPayloadView>,
    sender: Option<Seq<char>>,
    ours: Seq<char>,
) -> (Set<Seq<char>>, Result<ReceiveOutcome, ReceiveError>) {
    if player_id == crate::command::ENTITY_SELF_ID {
        (seen, Err(ReceiveError::FromSelf))
    } else if msg is None {
        (seen, Err(ReceiveError::Undecodable))
    } else if sender is None {
        (seen, Ok(no_outcome()))
    } else {
        let name = sender->0;
        let is_new = !seen.contains(name);
        (
            seen.insert(name),
            Ok(
                match msg->0 {
                    RelayPayloadView::Hello { version } => ReceiveOutcome {
                        announce: is_new,
                        newer_version: is_new && newer_version(version, ours),
                        rebroadcast: true,
                    },
                    RelayPayloadView::PetState => ReceiveOutcome {
                        announce: is_new,
                        newer_version: false,
                        rebroadcast: false,
                    },
                },
            ),
        )
    }
}

/// Decide what a relay message from `player_id` calls for, recording the
/// sender as a plugin peer.
pub fn handle_receive(
    seen: &mut SeenPlugins,
    player_id: u8,
    msg: Option<RelayPayload>,
    sender_real: Option<String>,
    our_version: &str,
) -> (r: Result<ReceiveOutcome, ReceiveError>)
    requires
        old(seen).wf(),
    ensures
        final(seen).wf(),
        (final(seen)@, r) == receive(
            old(seen)@,
            player_id,
            match msg {
                Some(m) => Some(m@),
                None => None,
            },
            match sender_real {
                Some(n) => Some(n@),
                None => None,
            },
            our_version@,
        ),
{
    if player_id == crate::command::ENTITY_SELF_ID {
        return Err(ReceiveError::FromSelf);
    }
    let msg = match msg {
        Some(m) => m,
        None => {
            return Err(ReceiveError::Undecodable);
        },
    };
    let sender = match sender_real {
        Some(n) => n,
        None => {
            return Ok(ReceiveOutcome { announce: false, newer_version: false, rebroadcast: false });
        },
    };
    let is_new = seen.insert(sender);
    match msg {
        RelayPayload::Hello { version } => {
            let newer = is_new && is_newer_version(version.as_str(), our_version);
            Ok(ReceiveOutcome { announce: is_new, newer_version: newer, rebroadcast: true })
        },
        RelayPayload::PetState => Ok(
            ReceiveOutcome { announce: is_new, newer_version: false, rebroadcast: false },
        ),
    }
}

// ---------------------------------------------------------------------------
// Laws
// ---------------------------------------------------------------------------

/// A peer is announced at most once: after any accepted message from a
/// sender, a second message from the same sender is not announced and does
/// not report a newer version.
pub proof fn law_peer_announced_once(
    seen: Set<Seq<char>>,
    player_id: u8,
    first: RelayPayloadView,
    second: RelayPayloadView,
    sender: Seq<char>,
    ours: Seq<char>,
)
    requires
        player_id != crate::command::ENTITY_SELF_ID,
    ensures
        ({
            let (after, _) = receive(seen, player_id, Some(first), Some(sender), ours);
            let (_, again) = receive(after, player_id, Some(second), Some(sender), ours);
            again matches Ok(o) && !o.announce && !o.newer_version
        }),
{
}

/// "Newer than" between versions is asymmetric: two versions are never each
/// newer than the other.
pub proof fn law_newer_version_asymmetric(a: Seq<char>, b: Seq<char>)
    ensures
        !(newer_version(a, b) && newer_version(b, a)),
{
}

/// The decimal digit character for `d` (0 to 9).
pub open spec fn digit_char(d: int) -> char {
    if d == 0 {
        '0'
    } else if d == 1 {
        '1'
    } else if d == 2 {
        '2'
    } else if d == 3 {
        '3'
    } else if d == 4 {
        '4'
    } else if d == 5 {
        '5'
    } else if d == 6 {
        '6'
    } else if d == 7 {
        '7'
    } else if d == 8 {
        '8'
    } else {
        '9'
    }
}

/// `n` written in decimal without leading zeros, as `format!("{n}")` writes it.
pub open spec fn decimal(n: nat) -> Seq<char>
    decreases n,
{
    if n < 10 {
        seq![digit_char(n as int)]
    } else {
        decimal(n / 10).push(digit_char((n % 10) as int))
    }
}

proof fn lemma_digit_char(d: int)
    requires
        0 <= d < 10,
    ensures
        is_digit(digit_char(d)),
        digit_char(d) as int - '0' as int == d,
{
}

proof fn lemma_decimal(n: nat)
    ensures
        decimal(n).len() >= 1,
        all_digits(decimal(n)),
        decimal(n)[0] != '+',
        digits_value(decimal(n)) == n,
        forall|i: int| 0 <= i < decimal(n).len() ==> #[trigger] decimal(n)[i] != '.',
    decreases n,
{
    if n < 10 {
        lemma_digit_char(n as int);
        let d = decimal(n);
        assert(d.drop_last() =~= Seq::<char>::empty());
        assert(d.last() == digit_char(n as int));
        assert(digits_value(d) == digits_value(d.drop_last()) * 10 + (d.last() as int - '0' as int));
        assert(digits_value(Seq::<char>::empty()) == 0);
    } else {
        lemma_decimal(n / 10);
        lemma_digit_char((n % 10) as int);
        let d = decimal(n);
        assert(d.drop_last() =~= decimal(n / 10));
        assert(d.last() == digit_char((n % 10) as int));
        assert(digits_value(d) == digits_value(d.drop_last()) * 10 + (d.last() as int - '0' as int));
        assert(digits_value(d) == digits_value(decimal(n / 10)) * 10 + (n % 10) as int);
        vstd::arithmetic::div_mod::lemma_fundamental_div_mod(n as int, 10);
        assert forall|i: int| 0 <= i < d.len() implies is_digit(#[trigger] d[i]) && d[i] != '.' by {
            if i < d.len() - 1 {
                assert(d[i] == decimal(n / 10)[i]);
            }
        }
    }
}

/// Appending dot-free text to `s` extends the last piece of its split.
proof fn lemma_split_dots_extend(s: Seq<char>, t: Seq<char>)
    requires
        forall|i: int| 0 <= i < t.len() ==> #[trigger] t[i] != '.',
    ensures
        split_dots(s + t) == split_dots(s).update(
            split_dots(s).len() - 1,
            split_dots(s).last() + t,
        ),
    decreases t.len(),
{
    lemma_split_dots_nonempty(s);
    if t.len() == 0 {
        assert(s + t =~= s);
        assert(split_dots(s).last() + t =~= split_dots(s).last());
        assert(split_dots(s).update(split_dots(s).len() - 1, split_dots(s).last())
            =~= split_dots(s));
    } else {
        let t1 = t.drop_last();
        assert forall|i: int| 0 <= i < t1.len() implies #[trigger] t1[i] != '.' by {
            assert(t1[i] == t[i]);
        }
        lemma_split_dots_extend(s, t1);
        assert((s + t).drop_last() =~= s + t1);
        assert((s + t).last() == t.last());
        assert(t.last() != '.');
        let rest = split_dots(s + t1);
        assert(rest.last() == split_dots(s).last() + t1);
        assert(rest.last().push(t.last()) =~= split_dots(s).last() + t);
        assert(rest.update(rest.len() - 1, rest.last().push(t.last())) =~= split_dots(s).update(
            split_dots(s).len() - 1,
            split_dots(s).last() + t,
        ));
    }
}

/// Appending a dot to `s` starts a new, empty piece.
proof fn lemma_split_dots_dot(s: Seq<char>)
    ensures
        split_dots(s.push('.')) == split_dots(s).push(Seq::<char>::empty()),
{
    assert(s.push('.').drop_last() =~= s);
}

/// A version written as `major.minor.patch` in decimal parses back to the
/// same three numbers.
pub proof fn law_parse_version_round_trip(a: u32, b: u32, c: u32)
    ensures
        parsed_version(decimal(a as nat) + seq!['.'] + decimal(b as nat) + seq!['.'] + decimal(
            c as nat,
        )) == Some((a, b, c)),
{
    let (x, y, z) = (decimal(a as nat), decimal(b as nat), decimal(c as nat));
    lemma_decimal(a as nat);
    lemma_decimal(b as nat);
    lemma_decimal(c as nat);
    let e = Seq::<char>::empty();
    assert(split_dots(e) == seq![e]);
    lemma_split_dots_extend(e, x);
    assert(e + x =~= x);
    assert(split_dots(x) =~= seq![x]);
    lemma_split_dots_dot(x);
    assert(x + seq!['.'] =~= x.push('.'));
    let s1 = x.push('.');
    assert(split_dots(s1) =~= seq![x, e]);
    lemma_split_dots_extend(s1, y);
    assert(split_dots(s1 + y) =~= seq![x, y]);
    let s2 = (s1 + y).push('.');
    lemma_split_dots_dot(s1 + y);
    assert(split_dots(s2) =~= seq![x, y, e]);
    lemma_split_dots_extend(s2, z);
    assert(split_dots(s2 + z) =~= seq![x, y, z]);
    assert(x + seq!['.'] + y + seq!['.'] + z =~= s2 + z);
    assert(unsigned_digits(x) == x);
    assert(unsigned_digits(y) == y);
    assert(unsigned_digits(z) == z);
}

} // verus!
