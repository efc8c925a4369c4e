//! Prompts that are sent after a while, once or again and again.
use tokio::task::{JoinError, JoinHandle};
use vstd::prelude::*;
use vstd::string::StringExecFns;

use crate::keyed;
use crate::number;
use crate::number::{parse_u64, push_decimal};
use crate::order;
use crate::order::sort_strings;
use crate::text;
use crate::text::{
    chars_of, copy_of, str_eq, str_strip_prefix, str_trim, str_trim_start, string_of,
};
use crate::words;

verus! {

/// How the command is used.
pub const LOOP_USAGE: &'static str = "Usage: /loop <duration> <prompt>, /loop every <duration> <prompt>, or /loop stop [id]";

/// A handle of a task.
#[verifier::external_type_specification]
#[verifier::external_body]
#[verifier::reject_recursive_types(T)]
pub struct ExJoinHandle<T>(JoinHandle<T>);

/// Why a task has no result.
#[verifier::external_type_specification]
#[verifier::external_body]
pub struct ExJoinError(JoinError);

/// Calls `JoinHandle::abort`, which tells a task to end. Nothing that is
/// modelled here changes.
#[verifier::external_body]
fn abort_task(handle: &JoinHandle<()>) {
    handle.abort()
}

/// What a loop is told apart by.
#[derive(Clone, Copy, Debug, PartialEq, Eq, Hash, Structural)]
pub struct LoopId(pub u64);

impl LoopId {
    /// The id in decimal.
    pub fn text(&self) -> (r: String)
        ensures
            r@ == number::decimal(self.0 as nat),
    {
        number::decimal_text(self.0)
    }
}

/// A prompt, and when it is sent.
#[derive(Debug, PartialEq, Eq)]
pub struct LoopSpec {
    /// The seconds until it is sent.
    pub interval: u64,
    pub prompt: String,
    pub repeat: bool,
}

/// The view of a [`LoopSpec`].
pub struct LoopModel {
    pub interval: u64,
    pub prompt: Seq<char>,
    pub repeat: bool,
}

impl View for LoopSpec {
    type V = LoopModel;

    open spec fn view(&self) -> LoopModel {
        LoopModel { interval: self.interval, prompt: self.prompt@, repeat: self.repeat }
    }
}

impl Clone for LoopSpec {
    fn clone(&self) -> (r: LoopSpec)
        ensures
            r@ == self@,
    {
        LoopSpec {
            interval: self.interval,
            prompt: copy_of(self.prompt.as_str()),
            repeat: self.repeat,
        }
    }
}

impl LoopSpec {
    /// Whether the prompt is sent again after it was sent.
    pub fn runs_again(&self) -> (r: bool)
        ensures
            r == self@.repeat,
    {
        self.repeat
    }
}

/// The number of digits that a text begins with.
pub open spec fn leading_digits(s: Seq<char>) -> nat
    decreases s.len(),
{
    if s.len() == 0 || !number::is_digit(s[0]) {
        0
    } else {
        1 + leading_digits(s.skip(1))
    }
}

/// The seconds of a unit of time.
pub open spec fn unit_seconds(unit: Seq<char>) -> Option<nat> {
    if unit.len() == 0 || unit == "s"@ || unit == "sec"@ || unit == "secs"@ {
        Some(1)
    } else if unit == "m"@ || unit == "min"@ || unit == "mins"@ {
        Some(60)
    } else if unit == "h"@ || unit == "hr"@ || unit == "hrs"@ {
        Some(3_600)
    } else if unit == "d"@ || unit == "day"@ || unit == "days"@ {
        Some(86_400)
    } else {
        None
    }
}

/// The nearest number of 64 bits.
pub open spec fn capped(n: nat) -> u64 {
    if n > u64::MAX {
        u64::MAX
    } else {
        n as u64
    }
}

pub open spec fn invalid_duration_text(token: Seq<char>) -> Seq<char> {
    "Invalid /loop duration '"@ + token + "'."@
}

/// The seconds that a duration writes, or what is wrong with it: a number above
/// zero, and a unit.
pub open spec fn duration_seconds(token: Seq<char>) -> Result<u64, Seq<char>> {
    let digits = leading_digits(token) as int;
    let unit = token.skip(digits);
    match number::parsed_u64(token.take(digits)) {
        None => Err(invalid_duration_text(token)),
        Some(value) => if value == 0 {
            Err("/loop duration must be greater than zero."@)
        } else {
            match unit_seconds(unit) {
                Some(seconds) => Ok(capped(value as nat * seconds)),
                None => Err("Unsupported /loop duration unit '"@ + unit + "'."@),
            }
        },
    }
}

proof fn lemma_leading_digits(s: Seq<char>)
    ensures
        leading_digits(s) <= s.len(),
        forall|i: int| 0 <= i < leading_digits(s) ==> number::is_digit(#[trigger] s[i]),
        leading_digits(s) < s.len() ==> !number::is_digit(s[leading_digits(s) as int]),
    decreases s.len(),
{
    if s.len() > 0 && number::is_digit(s[0]) {
        lemma_leading_digits(s.skip(1));
        assert forall|i: int| 0 <= i < leading_digits(s) implies number::is_digit(
            #[trigger] s[i],
        ) by {
            if i > 0 {
                assert(s.skip(1)[i - 1] == s[i]);
            }
        }
    }
}

proof fn lemma_leading_digits_is(s: Seq<char>, n: int)
    requires
        0 <= n <= s.len(),
        forall|i: int| 0 <= i < n ==> number::is_digit(#[trigger] s[i]),
        n < s.len() ==> !number::is_digit(s[n]),
    ensures
        leading_digits(s) == n,
{
    lemma_leading_digits(s);
}

fn seconds_per_unit(unit: &str) -> (r: Option<u64>)
    ensures
        (match r {
            Some(seconds) => Some(seconds as nat),
            None => None,
        }) == unit_seconds(unit@),
{
    if text::is_empty(unit) || str_eq(unit, "s") || str_eq(unit, "sec") || str_eq(unit, "secs") {
        Some(1)
    } else if str_eq(unit, "m") || str_eq(unit, "min") || str_eq(unit, "mins") {
        Some(60)
    } else if str_eq(unit, "h") || str_eq(unit, "hr") || str_eq(unit, "hrs") {
        Some(3_600)
    } else if str_eq(unit, "d") || str_eq(unit, "day") || str_eq(unit, "days") {
        Some(86_400)
    } else {
        None
    }
}

/// Reads a duration.
pub fn parse_duration_token(token: &str) -> (r: Result<u64, String>)
    ensures
        text::error_view(r) == duration_seconds(token@),
{
    let chars = chars_of(token);
    let mut n: usize = 0;
    while n < chars.len() && '0' <= chars[n] && chars[n] <= '9'
        invariant
            n <= chars@.len(),
            forall|i: int| 0 <= i < n ==> number::is_digit(#[trigger] chars@[i]),
        decreases chars@.len() - n,
    {
        n = n + 1;
    }
    proof {
        lemma_leading_digits_is(chars@, n as int);
    }
    let digits = string_of(&chars, 0, n);
    let unit = string_of(&chars, n, chars.len());
    proof {
        assert(digits@ =~= token@.take(n as int));
        assert(unit@ =~= token@.skip(n as int));
    }
    let value: u64 = match parse_u64(digits.as_str()) {
        Some(value) => value,
        None => {
            let mut e = copy_of("Invalid /loop duration '");
            e.append(token);
            e.append("'.");
            return Err(e);
        },
    };
    if value == 0 {
        return Err(copy_of("/loop duration must be greater than zero."));
    }
    match seconds_per_unit(unit.as_str()) {
        Some(seconds) => {
            assert(value * seconds <= u64::MAX * 86_400) by (nonlinear_arith)
                requires
                    value <= u64::MAX,
                    seconds <= 86_400,
            ;
            let product: u128 = (value as u128) * (seconds as u128);
            if product > u64::MAX as u128 {
                Ok(u64::MAX)
            } else {
                Ok(product as u64)
            }
        },
        None => {
            let mut e = copy_of("Unsupported /loop duration unit '");
            e.append(unit.as_str());
            e.append("'.");
            Err(e)
        },
    }
}

/// A loop that a command asks for, or what is wrong with the command.
pub open spec fn requested_loop(input: Seq<char>) -> Result<LoopModel, Seq<char>> {
    let trimmed = text::trim(input);
    let every = text::strip_prefix(trimmed, "every "@);
    let rest = match every {
        Some(rest) => text::trim_start(rest),
        None => trimmed,
    };
    let end = words::word_len(rest) as int;
    let prompt = text::trim(rest.skip(end + 1));
    if trimmed.len() == 0 || end >= rest.len() {
        Err(LOOP_USAGE@)
    } else if prompt.len() == 0 {
        Err("Loop prompt must not be empty."@)
    } else {
        match duration_seconds(rest.take(end)) {
            Ok(interval) => Ok(LoopModel { interval, prompt, repeat: every is Some }),
            Err(e) => Err(e),
        }
    }
}

/// The view of a loop, or of what is wrong.
pub open spec fn loop_view(r: Result<LoopSpec, String>) -> Result<LoopModel, Seq<char>> {
    match r {
        Ok(spec) => Ok(spec@),
        Err(e) => Err(e@),
    }
}

/// Reads a command for a loop: a duration and a prompt, after `every` where the
/// prompt is to be sent again and again.
pub fn parse_loop_spec(input: &str) -> (r: Result<LoopSpec, String>)
    ensures
        loop_view(r) == requested_loop(input@),
{
    let trimmed = str_trim(input);
    if text::is_empty(trimmed.as_str()) {
        return Err(copy_of(LOOP_USAGE));
    }
    let (repeat, rest) = match str_strip_prefix(trimmed.as_str(), "every ") {
        Some(rest) => (true, str_trim_start(rest.as_str())),
        None => (false, trimmed),
    };
    let chars = chars_of(rest.as_str());
    let mut end: usize = 0;
    while end < chars.len() && !text::is_white_space(chars[end])
        invariant
            end <= chars@.len(),
            forall|i: int| 0 <= i < end ==> !text::white_space(#[trigger] chars@[i]),
        decreases chars@.len() - end,
    {
        end = end + 1;
    }
    proof {
        words::lemma_word_len_is(rest@, end as int);
    }
    if end == chars.len() {
        return Err(copy_of(LOOP_USAGE));
    }
    let duration = string_of(&chars, 0, end);
    let tail = string_of(&chars, end + 1, chars.len());
    proof {
        assert(duration@ =~= rest@.take(end as int));
        assert(tail@ =~= rest@.skip(end + 1));
    }
    let prompt = str_trim(tail.as_str());
    if text::is_empty(prompt.as_str()) {
        return Err(copy_of("Loop prompt must not be empty."));
    }
    match parse_duration_token(duration.as_str()) {
        Ok(interval) => Ok(LoopSpec { interval, prompt, repeat }),
        Err(e) => Err(e),
    }
}

/// Reads the id of a loop.
pub fn parse_loop_id(input: &str) -> (r: Result<LoopId, String>)
    ensures
        text::error_view(r) == (match number::parsed_u64(text::trim(input@)) {
            Some(id) => Ok(LoopId(id)),
            None => Err("Invalid /loop id '"@ + input@ + "'."@),
        }),
{
    let trimmed = str_trim(input);
    match parse_u64(trimmed.as_str()) {
        Some(id) => Ok(LoopId(id)),
        None => {
            let mut e = copy_of("Invalid /loop id '");
            e.append(input);
            e.append("'.");
            Err(e)
        },
    }
}

/// A duration in the largest unit that it is a whole number of.
pub open spec fn duration_text(seconds: u64) -> Seq<char> {
    if seconds % 86_400 == 0 {
        number::decimal((seconds / 86_400) as nat) + "d"@
    } else if seconds % 3_600 == 0 {
        number::decimal((seconds / 3_600) as nat) + "h"@
    } else if seconds % 60 == 0 {
        number::decimal((seconds / 60) as nat) + "m"@
    } else {
        number::decimal(seconds as nat) + "s"@
    }
}

/// Writes a duration in the largest unit that it is a whole number of.
pub fn format_duration(seconds: u64) -> (r: String)
    ensures
        r@ == duration_text(seconds),
{
    let mut r = String::new();
    if seconds % 86_400 == 0 {
        push_decimal(&mut r, seconds / 86_400);
        r.append("d");
    } else if seconds % 3_600 == 0 {
        push_decimal(&mut r, seconds / 3_600);
        r.append("h");
    } else if seconds % 60 == 0 {
        push_decimal(&mut r, seconds / 60);
        r.append("m");
    } else {
        push_decimal(&mut r, seconds);
        r.append("s");
    }
    assert(r@ =~= duration_text(seconds));
    r
}

/// What is said of a loop in the list of loops.
pub open spec fn description(id: u64, spec: LoopModel) -> Seq<char> {
    "#"@ + number::decimal(id as nat) + " "@ + (if spec.repeat {
        "every"@
    } else {
        "in"@
    }) + " "@ + duration_text(spec.interval) + ": "@ + spec.prompt
}

/// Describes a loop in the list of loops.
pub fn loop_description(id: LoopId, spec: &LoopSpec) -> (r: String)
    ensures
        r@ == description(id.0, spec@),
{
    let cadence = if spec.repeat {
        "every"
    } else {
        "in"
    };
    let mut r = copy_of("#");
    push_decimal(&mut r, id.0);
    r.append(" ");
    r.append(cadence);
    r.append(" ");
    r.append(format_duration(spec.interval).as_str());
    r.append(": ");
    r.append(spec.prompt.as_str());
    r
}

/// What is said when a loop begins.
pub open spec fn scheduled_text(id: u64, spec: LoopModel) -> Seq<char> {
    "Scheduled "@ + (if spec.repeat {
        "recurring"@
    } else {
        "one-shot"@
    }) + " /loop #"@ + number::decimal(id as nat) + " "@ + (if spec.repeat {
        "every"@
    } else {
        "in"@
    }) + " "@ + duration_text(spec.interval) + ": "@ + spec.prompt
}

/// Says that a loop begins.
pub fn loop_scheduled_message(id: LoopId, spec: &LoopSpec) -> (r: String)
    ensures
        r@ == scheduled_text(id.0, spec@),
{
    let cadence = if spec.repeat {
        "recurring"
    } else {
        "one-shot"
    };
    let preposition = if spec.repeat {
        "every"
    } else {
        "in"
    };
    let mut r = copy_of("Scheduled ");
    r.append(cadence);
    r.append(" /loop #");
    push_decimal(&mut r, id.0);
    r.append(" ");
    r.append(preposition);
    r.append(" ");
    r.append(format_duration(spec.interval).as_str());
    r.append(": ");
    r.append(spec.prompt.as_str());
    r
}

/// A loop that runs.
pub struct ActiveLoop {
    pub spec: LoopSpec,
    pub handle: JoinHandle<()>,
}

/// The view of an [`ActiveLoop`].
pub struct ActiveModel {
    pub spec: LoopModel,
    pub handle: JoinHandle<()>,
}

impl View for ActiveLoop {
    type V = ActiveModel;

    open spec fn view(&self) -> ActiveModel {
        ActiveModel { spec: self.spec@, handle: self.handle }
    }
}

/// The loops that run.
pub struct LoopRegistry {
    next_id: u64,
    active: Vec<(u64, ActiveLoop)>,
}

spec fn entries(active: Seq<(u64, ActiveLoop)>) -> Seq<(u64, ActiveModel)> {
    active.map_values(|entry: (u64, ActiveLoop)| (entry.0, entry.1@))
}

/// What is said of each of some loops.
pub open spec fn descriptions(loops: Seq<(u64, LoopModel)>) -> Seq<Seq<char>> {
    loops.map_values(|entry: (u64, LoopModel)| description(entry.0, entry.1))
}

/// Whether a list holds each of some loops once.
pub open spec fn enumerates(loops: Seq<(u64, LoopModel)>, active: Map<u64, ActiveModel>) -> bool {
    &&& keyed::keys(loops).no_duplicates()
    &&& forall|i: int|
        0 <= i < loops.len() ==> active.contains_key((#[trigger] loops[i]).0)
            && active[loops[i].0].spec == loops[i].1
    &&& forall|id: u64| #[trigger]
        active.contains_key(id) ==> exists|i: int|
            0 <= i < loops.len() && (#[trigger] loops[i]).0 == id
}

/// Ends the task of each loop, and gives their ids.
fn abort_loops(loops: &Vec<(LoopId, ActiveLoop)>) -> (r: Vec<LoopId>)
    ensures
        r@.len() == loops@.len(),
        forall|i: int| 0 <= i < r@.len() ==> #[trigger] r@[i] == loops@[i].0,
{
    let mut ids: Vec<LoopId> = Vec::new();
    let mut i: usize = 0;
    while i < loops.len()
        invariant
            i <= loops@.len(),
            ids@.len() == i,
            forall|k: int| 0 <= k < i ==> #[trigger] ids@[k] == loops@[k].0,
        decreases loops@.len() - i,
    {
        abort_task(&loops[i].1.handle);
        ids.push(loops[i].0);
        i = i + 1;
    }
    ids
}

impl LoopRegistry {
    /// The loops that run, by their ids.
    pub closed spec fn view(&self) -> Map<u64, ActiveModel> {
        keyed::by_key(entries(self.active@))
    }

    /// The id of the next loop.
    pub closed spec fn upcoming(&self) -> u64 {
        self.next_id
    }

    /// Each id is one loop's at most.
    pub closed spec fn wf(&self) -> bool {
        keyed::keys(entries(self.active@)).no_duplicates()
    }

    /// No loops. The first will have the id 1.
    pub fn new() -> (r: LoopRegistry)
        ensures
            r.wf(),
            r@ == Map::<u64, ActiveModel>::empty(),
            r.upcoming() == 1,
    {
        let r = LoopRegistry { next_id: 1, active: Vec::new() };
        assert(r@ =~= Map::<u64, ActiveModel>::empty());
        r
    }

    /// An id for a new loop. After the largest number comes zero.
    pub fn reserve_id(&mut self) -> (r: LoopId)
        ensures
            r.0 == old(self).upcoming(),
            final(self).upcoming() == (if old(self).upcoming() == u64::MAX {
                0
            } else {
                old(self).upcoming() + 1
            }),
            final(self)@ == old(self)@,
            final(self).wf() == old(self).wf(),
    {
        let id: u64 = self.next_id;
        self.next_id = if id == u64::MAX {
            0
        } else {
            id + 1
        };
        LoopId(id)
    }

    /// Takes a loop out, and hands it over.
    pub fn take_loop(&mut self, id: LoopId) -> (r: Option<ActiveLoop>)
        requires
            old(self).wf(),
        ensures
            final(self).wf(),
            final(self).upcoming() == old(self).upcoming(),
            match r {
                Some(taken) => old(self)@.contains_key(id.0) && taken@ == old(self)@[id.0],
                None => !old(self)@.contains_key(id.0),
            },
            final(self)@ == old(self)@.remove(id.0),
    {
        let mut i: usize = 0;
        while i < self.active.len()
            invariant
                self.wf(),
                *self == *old(self),
                i <= self.active@.len(),
                forall|k: int| 0 <= k < i ==> (#[trigger] self.active@[k]).0 != id.0,
            decreases self.active@.len() - i,
        {
            if self.active[i].0 == id.0 {
                let ghost before = self.active@;
                let (_, taken) = self.active.remove(i);
                proof {
                    keyed::lemma_entry(entries(before), i as int);
                    keyed::lemma_removed(entries(before), i as int);
                    assert(entries(self.active@) =~= entries(before).remove(i as int));
                }
                return Some(taken);
            }
            i = i + 1;
        }
        proof {
            if self@.contains_key(id.0) {
                let k = keyed::lemma_place(entries(self.active@), id.0);
            }
            assert(self@ =~= old(self)@.remove(id.0));
        }
        None
    }

    /// Notes a loop that runs, in the place of one with the same id.
    pub fn insert(&mut self, id: LoopId, active_loop: ActiveLoop)
        requires
            old(self).wf(),
        ensures
            final(self).wf(),
            final(self).upcoming() == old(self).upcoming(),
            final(self)@ == old(self)@.insert(id.0, active_loop@),
    {
        let replaced = self.take_loop(id);
        let ghost before = self.active@;
        let ghost added = active_loop;
        self.active.push((id.0, active_loop));
        proof {
            keyed::lemma_pushed(entries(before), (id.0, added@));
            assert(entries(self.active@) =~= entries(before).push((id.0, added@)));
            assert(self@ =~= old(self)@.insert(id.0, added@));
        }
    }

    /// Ends a loop, and says whether it ran.
    pub fn stop_loop(&mut self, id: LoopId) -> (r: bool)
        requires
            old(self).wf(),
        ensures
            final(self).wf(),
            final(self).upcoming() == old(self).upcoming(),
            r == old(self)@.contains_key(id.0),
            final(self)@ == old(self)@.remove(id.0),
    {
        match self.take_loop(id) {
            Some(taken) => {
                abort_task(&taken.handle);
                true
            },
            None => false,
        }
    }

    /// Takes all loops out, and hands them over, in no particular order.
    pub fn take_all_loops(&mut self) -> (r: Vec<(LoopId, ActiveLoop)>)
        requires
            old(self).wf(),
        ensures
            final(self).wf(),
            final(self).upcoming() == old(self).upcoming(),
            final(self)@ == Map::<u64, ActiveModel>::empty(),
            forall|i: int, j: int|
                0 <= i < j < r@.len() ==> (#[trigger] r@[i]).0 != (#[trigger] r@[j]).0,
            forall|i: int|
                0 <= i < r@.len() ==> old(self)@.contains_key((#[trigger] r@[i]).0.0) && r@[i].1@
                    == old(self)@[r@[i].0.0],
            forall|id: u64| #[trigger]
                old(self)@.contains_key(id) ==> exists|i: int|
                    0 <= i < r@.len() && (#[trigger] r@[i]).0.0 == id,
    {
        let ghost all = self.active@;
        let mut taken: Vec<(LoopId, ActiveLoop)> = Vec::new();
        assert(all.take(all.len() as int) =~= all);
        while self.active.len() > 0
            invariant
                self.upcoming() == old(self).upcoming(),
                self.active@.len() + taken@.len() == all.len(),
                self.active@ == all.take(self.active@.len() as int),
                forall|k: int|
                    0 <= k < taken@.len() ==> (#[trigger] taken@[k]).0.0 == all[all.len() - 1 - k].0
                        && taken@[k].1 == all[all.len() - 1 - k].1,
            decreases self.active@.len(),
        {
            let ghost before = self.active@;
            let (id, active_loop) = self.active.pop().unwrap();
            taken.push((LoopId(id), active_loop));
            assert(self.active@ =~= all.take(self.active@.len() as int));
        }
        proof {
            let n = all.len();
            assert(entries(self.active@) =~= Seq::<(u64, ActiveModel)>::empty());
            assert(self@ =~= Map::<u64, ActiveModel>::empty());
            assert forall|i: int, j: int| 0 <= i < j < taken@.len() implies (#[trigger] taken@[i]).0
                != (#[trigger] taken@[j]).0 by {
                let keys = keyed::keys(entries(all));
                assert(keys[n - 1 - i] == all[n - 1 - i].0);
                assert(keys[n - 1 - j] == all[n - 1 - j].0);
            }
            assert forall|i: int| 0 <= i < taken@.len() implies old(self)@.contains_key(
                (#[trigger] taken@[i]).0.0,
            ) && taken@[i].1@ == old(self)@[taken@[i].0.0] by {
                keyed::lemma_entry(entries(all), n - 1 - i);
            }
            assert forall|id: u64| #[trigger] old(self)@.contains_key(id) implies exists|i: int|
                0 <= i < taken@.len() && (#[trigger] taken@[i]).0.0 == id by {
                let k = keyed::lemma_place(entries(all), id);
                assert(taken@[n - 1 - k].0.0 == id);
            }
        }
        taken
    }

    /// Ends all loops, and gives their ids, in no particular order.
    pub fn stop_all_loops(&mut self) -> (r: Vec<LoopId>)
        requires
            old(self).wf(),
        ensures
            final(self).wf(),
            final(self).upcoming() == old(self).upcoming(),
            final(self)@ == Map::<u64, ActiveModel>::empty(),
            r@.no_duplicates(),
            forall|id: LoopId| #[trigger] r@.contains(id) <==> old(self)@.contains_key(id.0),
    {
        let taken = self.take_all_loops();
        let ids = abort_loops(&taken);
        proof {
            assert forall|id: LoopId| #[trigger] ids@.contains(id) <==> old(self)@.contains_key(
                id.0,
            ) by {
                if ids@.contains(id) {
                    let i = choose|i: int| 0 <= i < ids@.len() && ids@[i] == id;
                    assert(taken@[i].0 == id);
                }
                if old(self)@.contains_key(id.0) {
                    let i = choose|i: int| 0 <= i < taken@.len() && (#[trigger] taken@[i]).0.0 == id.0;
                    assert(ids@[i] == id);
                }
            }
            assert forall|i: int, j: int|
                0 <= i < ids@.len() && 0 <= j < ids@.len() && i != j implies ids@[i] != ids@[j] by {
                if i < j {
                    assert(taken@[i].0 != taken@[j].0);
                } else {
                    assert(taken@[j].0 != taken@[i].0);
                }
            }
        }
        ids
    }

    /// What is said of the loops that run, sorted.
    pub fn active_loop_descriptions(&self) -> (r: Vec<String>)
        requires
            self.wf(),
        ensures
            order::is_sorted(text::views(r@)),
            exists|loops: Seq<(u64, LoopModel)>| #[trigger]
                enumerates(loops, self@) && text::views(r@).to_multiset() == descriptions(
                    loops,
                ).to_multiset(),
    {
        let ghost loops = self.active@.map_values(
            |entry: (u64, ActiveLoop)| (entry.0, entry.1.spec@),
        );
        let mut r: Vec<String> = Vec::new();
        let mut i: usize = 0;
        assert(text::views(r@) =~= descriptions(loops.take(0)));
        while i < self.active.len()
            invariant
                i <= self.active@.len(),
                loops == self.active@.map_values(
                    |entry: (u64, ActiveLoop)| (entry.0, entry.1.spec@),
                ),
                text::views(r@) == descriptions(loops.take(i as int)),
            decreases self.active@.len() - i,
        {
            let ghost before = text::views(r@);
            let said = loop_description(LoopId(self.active[i].0), &self.active[i].1.spec);
            let ghost added = said@;
            r.push(said);
            proof {
                assert(text::views(r@) =~= before.push(added));
                assert(descriptions(loops.take(i + 1)) =~= descriptions(loops.take(i as int)).push(
                    added,
                ));
            }
            i = i + 1;
        }
        proof {
            assert(loops.take(i as int) =~= loops);
            assert(keyed::keys(loops) =~= keyed::keys(entries(self.active@)));
            assert forall|k: int| 0 <= k < loops.len() implies self@.contains_key(
                (#[trigger] loops[k]).0,
            ) && self@[loops[k].0].spec == loops[k].1 by {
                keyed::lemma_entry(entries(self.active@), k);
            }
            assert forall|id: u64| #[trigger] self@.contains_key(id) implies exists|k: int|
                0 <= k < loops.len() && (#[trigger] loops[k]).0 == id by {
                let k = keyed::lemma_place(entries(self.active@), id);
                assert(loops[k].0 == id);
            }
            assert(enumerates(loops, self@));
        }
        sort_strings(r)
    }
}

/// Reading a duration that was written gives the duration, for every duration
/// above zero.
pub proof fn duration_reads_back(seconds: u64)
    requires
        seconds > 0,
    ensures
        duration_seconds(duration_text(seconds)) == Ok::<u64, Seq<char>>(seconds),
{
    reveal_strlit("d");
    reveal_strlit("h");
    reveal_strlit("m");
    reveal_strlit("s");
    let (value, unit) = if seconds % 86_400 == 0 {
        ((seconds / 86_400) as u64, "d"@)
    } else if seconds % 3_600 == 0 {
        ((seconds / 3_600) as u64, "h"@)
    } else if seconds % 60 == 0 {
        ((seconds / 60) as u64, "m"@)
    } else {
        (seconds, "s"@)
    };
    let written = number::decimal(value as nat) + unit;
    let digits = number::decimal(value as nat);
    number::lemma_decimal(value as nat);
    number::decimal_reads_back(value);
    assert forall|i: int| 0 <= i < digits.len() implies number::is_digit(
        #[trigger] written[i],
    ) by {
        assert(number::is_digit(digits[i]));
    }
    lemma_leading_digits_is(written, digits.len() as int);
    assert(written.take(digits.len() as int) =~= digits);
    assert(written.skip(digits.len() as int) =~= unit);
    reveal_strlit("sec");
    reveal_strlit("secs");
    reveal_strlit("min");
    reveal_strlit("mins");
    reveal_strlit("hr");
    reveal_strlit("hrs");
    reveal_strlit("day");
    reveal_strlit("days");
    assert("s"@[0] == 's' && "sec"@[0] == 's' && "secs"@[0] == 's');
    assert("m"@[0] == 'm' && "min"@[0] == 'm' && "mins"@[0] == 'm');
    assert("h"@[0] == 'h' && "hr"@[0] == 'h' && "hrs"@[0] == 'h');
    if seconds % 86_400 == 0 {
        assert(unit[0] == 'd');
        assert(unit_seconds(unit) == Some(86_400nat));
        assert(value as nat * 86_400 == seconds);
    } else if seconds % 3_600 == 0 {
        assert(unit[0] == 'h');
        assert(unit_seconds(unit) == Some(3_600nat));
        assert(value as nat * 3_600 == seconds);
    } else if seconds % 60 == 0 {
        assert(unit[0] == 'm');
        assert(unit_seconds(unit) == Some(60nat));
        assert(value as nat * 60 == seconds);
    } else {
        assert(unit_seconds(unit) == Some(1nat));
    }
    let per = unit_seconds(unit)->0;
    assert(value as nat * per == seconds) by (nonlinear_arith)
        requires
            per == 86_400 && value * 86_400 == seconds || per == 3_600 && value * 3_600 == seconds
                || per == 60 && value * 60 == seconds || per == 1 && value == seconds,
    ;
    assert(written == duration_text(seconds));
}

/// A command for a loop as it is written: `every` where the prompt is to be sent
/// again and again, the duration, and the prompt.
pub open spec fn written_loop(spec: LoopModel) -> Seq<char> {
    (if spec.repeat {
        "every "@
    } else {
        ""@
    }) + duration_text(spec.interval) + " "@ + spec.prompt
}

/// A command for a loop that was written reads back, whatever white space stands
/// around it, for every interval above zero and every trimmed prompt.
pub proof fn written_loop_reads_back(spec: LoopModel, lead: Seq<char>, tail: Seq<char>)
    requires
        spec.interval > 0,
        spec.prompt.len() > 0,
        text::trim(spec.prompt) == spec.prompt,
        text::is_blank(lead),
        text::is_blank(tail),
    ensures
        requested_loop(lead + written_loop(spec) + tail) == Ok::<LoopModel, Seq<char>>(spec),
{
    reveal_strlit("every ");
    reveal_strlit("");
    reveal_strlit(" ");
    let duration = duration_text(spec.interval);
    let rest = duration + " "@ + spec.prompt;
    let trimmed = written_loop(spec);
    lemma_duration_text(spec.interval);
    duration_reads_back(spec.interval);
    if spec.repeat {
        assert(trimmed =~= "every "@ + rest);
        assert(trimmed.subrange(0, 6) =~= "every "@);
        assert(trimmed.skip(6) =~= rest);
    } else {
        assert(trimmed =~= rest);
        if "every "@.is_prefix_of(rest) {
            assert(rest.subrange(0, 6)[0] == 'e');
            assert(rest[0] == duration[0]);
        }
    }
    assert(rest[0] == duration[0]);
    assert(text::trim_start(rest) == rest);
    text::lemma_trimmed_ends(spec.prompt);
    assert(trimmed.last() == spec.prompt.last());
    text::lemma_trim_around(lead, trimmed, tail);
    let end = duration.len() as int;
    assert forall|i: int| 0 <= i < end implies !text::white_space(#[trigger] rest[i]) by {
        assert(rest[i] == duration[i]);
    }
    assert(rest[end] == ' ');
    words::lemma_word_len_is(rest, end);
    assert(rest.take(end) =~= duration);
    assert(rest.skip(end + 1) =~= spec.prompt);
}

/// What is read from a command for a loop has an interval of at least a second
/// and a trimmed prompt that says something.
pub proof fn requested_loop_is_proper(input: Seq<char>)
    ensures
        requested_loop(input) matches Ok(spec) ==> spec.interval >= 1 && spec.prompt.len() > 0
            && text::trim(spec.prompt) == spec.prompt,
{
    let trimmed = text::trim(input);
    let rest = match text::strip_prefix(trimmed, "every "@) {
        Some(rest) => text::trim_start(rest),
        None => trimmed,
    };
    let end = words::word_len(rest) as int;
    text::trim_is_stable(rest.skip(end + 1));
    lemma_duration_is_positive(rest.take(end));
}

proof fn lemma_duration_is_positive(token: Seq<char>)
    ensures
        duration_seconds(token) matches Ok(seconds) ==> seconds >= 1,
{
    let digits = leading_digits(token) as int;
    if let Some(value) = number::parsed_u64(token.take(digits)) {
        if let Some(seconds) = unit_seconds(token.skip(digits)) {
            if value > 0 {
                assert(value as nat * seconds >= 1) by (nonlinear_arith)
                    requires
                        value >= 1,
                        seconds >= 1,
                ;
            }
        }
    }
}

/// A duration is written with a digit first and without white space.
proof fn lemma_duration_text(seconds: u64)
    ensures
        duration_text(seconds).len() > 0,
        number::is_digit(duration_text(seconds)[0]),
        forall|i: int|
            0 <= i < duration_text(seconds).len() ==> !text::white_space(
                #[trigger] duration_text(seconds)[i],
            ),
{
    reveal_strlit("d");
    reveal_strlit("h");
    reveal_strlit("m");
    reveal_strlit("s");
    let value: u64 = if seconds % 86_400 == 0 {
        (seconds / 86_400) as u64
    } else if seconds % 3_600 == 0 {
        (seconds / 3_600) as u64
    } else if seconds % 60 == 0 {
        (seconds / 60) as u64
    } else {
        seconds
    };
    let digits = number::decimal(value as nat);
    number::lemma_decimal(value as nat);
    assert(number::is_digit(digits[0]));
    assert forall|i: int| 0 <= i < duration_text(seconds).len() implies !text::white_space(
        #[trigger] duration_text(seconds)[i],
    ) by {
        if i < digits.len() {
            assert(number::is_digit(digits[i]));
        }
    }
}

} // verus!
