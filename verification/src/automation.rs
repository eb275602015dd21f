//! Daily automations: finding one, approving or clearing its administrator
//! command, what each of its three parts (lights, floodlights, shell) does,
//! how their results combine, and which automations are due.
use vstd::prelude::*;
use crate::command::ControlCommand;
use crate::network::{matches_saved_network, network_matches, opt_chars};
use crate::settings::{FloodlightAction, Schedule, Settings};
use crate::text::{
    chars_eq, chars_of, debug_quoted, debug_text, join_strings, joined, push_str, starts_with,
    string_of, string_views, trim, trim_str,
};

verus! {

/// The first automation with identifier `id`.
pub fn find_schedule(schedules: &Vec<Schedule>, id: &str) -> (r: Result<usize, String>)
    ensures
        match r {
            Ok(i) => {
                &&& i < schedules@.len()
                &&& schedules@[i as int].id@ == id@
                &&& forall|j: int| 0 <= j < i ==> #[trigger] schedules@[j].id@ != id@
            },
            Err(m) => {
                &&& forall|j: int| 0 <= j < schedules@.len() ==> #[trigger] schedules@[j].id@ != id@
                &&& m@ == "schedule "@ + debug_text(id@) + " was not found"@
            },
        },
{
    let wanted = chars_of(id);
    let mut i: usize = 0;
    while i < schedules.len()
        invariant
            i <= schedules.len(),
            wanted@ == id@,
            forall|j: int| 0 <= j < i ==> #[trigger] schedules@[j].id@ != id@,
        decreases schedules.len() - i,
    {
        if chars_eq(&chars_of(schedules[i].id.as_str()), &wanted) {
            return Ok(i);
        }
        i += 1;
    }
    let mut m = chars_of("schedule ");
    push_str(&mut m, debug_quoted(id).as_str());
    push_str(&mut m, " was not found");
    Err(string_of(&m))
}

/// The command an administrator approval covers: the shell command, trimmed.
pub fn approval_command(schedule: &Schedule) -> (c: String)
    ensures
        c@ == trim(schedule.shell_command@),
{
    string_of(&trim_str(schedule.shell_command.as_str()))
}

/// Marks the automation's command as approved to run as administrator.
pub fn record_approval(schedule: &mut Schedule, command: String, approved_at: String)
    ensures
        *final(schedule) == (Schedule {
            run_as_administrator: true,
            privileged_approved_command: command,
            privileged_approved_at: approved_at,
            ..*old(schedule)
        }),
{
    schedule.run_as_administrator = true;
    schedule.privileged_approved_command = command;
    schedule.privileged_approved_at = approved_at;
}

/// `after` is `before` with its administrator approval withdrawn.
pub open spec fn approval_cleared(before: Schedule, after: Schedule) -> bool {
    &&& after == Schedule {
        run_as_administrator: false,
        privileged_approved_command: after.privileged_approved_command,
        privileged_approved_at: after.privileged_approved_at,
        ..before
    }
    &&& after.privileged_approved_command@.len() == 0
    &&& after.privileged_approved_at@.len() == 0
}

/// Withdraws the automation's administrator approval.
pub fn clear_approval(schedule: &mut Schedule)
    ensures
        approval_cleared(*old(schedule), *final(schedule)),
{
    schedule.run_as_administrator = false;
    schedule.privileged_approved_command = String::new();
    schedule.privileged_approved_at = String::new();
}

/// Withdraws every automation's administrator approval, as removing the
/// privileged service does.
pub fn clear_privileged_approvals(settings: &mut Settings)
    ensures
        *final(settings) == (Settings { schedules: final(settings).schedules, ..*old(settings) }),
        final(settings).schedules@.len() == old(settings).schedules@.len(),
        forall|i: int|
            0 <= i < old(settings).schedules@.len() ==> approval_cleared(
                #[trigger] old(settings).schedules@[i],
                final(settings).schedules@[i],
            ),
{
    let ghost before = *settings;
    let mut i: usize = 0;
    while i < settings.schedules.len()
        invariant
            i <= settings.schedules@.len(),
            *settings == (Settings { schedules: settings.schedules, ..before }),
            settings.schedules@.len() == before.schedules@.len(),
            forall|j: int|
                0 <= j < i ==> approval_cleared(
                    #[trigger] before.schedules@[j],
                    settings.schedules@[j],
                ),
            forall|j: int| i <= j < before.schedules@.len() ==> #[trigger] settings.schedules@[j]
                == before.schedules@[j],
        decreases before.schedules@.len() - i,
    {
        clear_approval(&mut settings.schedules[i]);
        i += 1;
    }
}

/// The preset commands an automation sends: one per listed light, or one
/// for every light when it lists none.
pub fn schedule_commands(schedule: &Schedule) -> (v: Vec<ControlCommand>)
    ensures
        schedule.lights@.len() == 0 ==> v@.len() == 1 && (v@[0] matches ControlCommand::Preset {
            name,
            device: None,
        } && name@ == schedule.preset@),
        schedule.lights@.len() > 0 ==> v@.len() == schedule.lights@.len() && forall|i: int|
            0 <= i < v@.len() ==> (#[trigger] v@[i] matches ControlCommand::Preset {
                name,
                device: Some(d),
            } && name@ == schedule.preset@ && d@ == schedule.lights@[i]@),
{
    let mut v: Vec<ControlCommand> = Vec::new();
    if schedule.lights.len() == 0 {
        v.push(ControlCommand::Preset { name: schedule.preset.clone(), device: None });
        return v;
    }
    let mut i: usize = 0;
    while i < schedule.lights.len()
        invariant
            i <= schedule.lights@.len(),
            v@.len() == i,
            forall|j: int|
                0 <= j < i ==> (#[trigger] v@[j] matches ControlCommand::Preset {
                    name,
                    device: Some(d),
                } && name@ == schedule.preset@ && d@ == schedule.lights@[j]@),
        decreases schedule.lights@.len() - i,
    {
        v.push(
            ControlCommand::Preset {
                name: schedule.preset.clone(),
                device: Some(schedule.lights[i].clone()),
            },
        );
        i += 1;
    }
    v
}

/// What the shell part of an automation does.
#[derive(Debug, Clone)]
pub enum ShellPlan {
    /// Nothing to run; report this message.
    Done(String),
    /// Run the approved job with this identifier through the privileged helper.
    Privileged(String),
    /// Run this command in a login shell.
    Shell(String),
}

/// An administrator approval covers the automation's command as it
/// stands now (trimmed).
pub open spec fn approval_current(schedule: Schedule) -> bool {
    schedule.privileged_approved_command@ == trim(schedule.shell_command@)
}

/// Editing an approved command so that its trimmed text changes makes the
/// approval stale: the automation no longer runs it as administrator.
pub proof fn lemma_edit_makes_approval_stale(approved: Schedule, edited: Schedule)
    requires
        approval_current(approved),
        edited == (Schedule { shell_command: edited.shell_command, ..approved }),
        trim(edited.shell_command@) != trim(approved.shell_command@),
    ensures
        !approval_current(edited),
{
}

/// Recording an approval of the current command makes it current.
pub proof fn lemma_recorded_approval_is_current(s: Schedule, approved: Schedule)
    requires
        approved == (Schedule {
            run_as_administrator: true,
            privileged_approved_command: approved.privileged_approved_command,
            privileged_approved_at: approved.privileged_approved_at,
            ..s
        }),
        approved.privileged_approved_command@ == trim(s.shell_command@),
    ensures
        approval_current(approved),
        approved.run_as_administrator,
{
}

pub fn shell_plan(schedule: &Schedule) -> (r: Result<ShellPlan, String>)
    ensures
        ({
            let command = trim(schedule.shell_command@);
            if command.len() == 0 {
                r matches Ok(ShellPlan::Done(m)) && m@ == "No shell command"@
            } else if schedule.run_as_administrator {
                if !approval_current(*schedule) {
                    r matches Err(m) && m@
                        == "administrator command changed and must be approved again"@
                } else {
                    r matches Ok(ShellPlan::Privileged(id)) && id@ == schedule.id@
                }
            } else {
                r matches Ok(ShellPlan::Shell(c)) && c@ == command
            }
        }),
{
    let command = trim_str(schedule.shell_command.as_str());
    if command.len() == 0 {
        return Ok(ShellPlan::Done("No shell command".to_string()));
    }
    if schedule.run_as_administrator {
        if !chars_eq(&chars_of(schedule.privileged_approved_command.as_str()), &command) {
            return Err("administrator command changed and must be approved again".to_string());
        }
        return Ok(ShellPlan::Privileged(schedule.id.clone()));
    }
    Ok(ShellPlan::Shell(string_of(&command)))
}

/// What a finished shell command reports, given whether it exited
/// successfully and what it wrote to standard error.
pub fn shell_outcome(success: bool, stderr: &str) -> (r: Result<String, String>)
    ensures
        success ==> (r matches Ok(m) && m@ == "Shell command completed"@),
        !success ==> (r matches Err(m) && m@ == "shell command failed: "@ + trim(stderr@)),
{
    if success {
        Ok("Shell command completed".to_string())
    } else {
        let mut m = chars_of("shell command failed: ");
        push_str(&mut m, string_of(&trim_str(stderr)).as_str());
        Err(string_of(&m))
    }
}

/// What the floodlight part of an automation does.
#[derive(Debug, Clone, PartialEq)]
pub enum FloodlightPlan {
    /// Leave the floodlights alone.
    Unchanged,
    /// Look up the current home network first.
    CheckHomeNetwork,
    /// Switch the floodlights on (`true`) or off.
    Switch(bool),
    /// Do not switch; report this message.
    Skipped(String),
}

pub fn floodlight_plan(action: FloodlightAction) -> (p: FloodlightPlan)
    ensures
        p == match action {
            FloodlightAction::Unchanged => FloodlightPlan::Unchanged,
            FloodlightAction::OnHomeNetwork => FloodlightPlan::CheckHomeNetwork,
            FloodlightAction::On => FloodlightPlan::Switch(true),
            FloodlightAction::Off => FloodlightPlan::Switch(false),
        },
{
    match action {
        FloodlightAction::Unchanged => FloodlightPlan::Unchanged,
        FloodlightAction::OnHomeNetwork => FloodlightPlan::CheckHomeNetwork,
        FloodlightAction::On => FloodlightPlan::Switch(true),
        FloodlightAction::Off => FloodlightPlan::Switch(false),
    }
}

/// Floodlights tied to the home network switch on only when the saved
/// router fingerprint matches the current one.
pub fn home_network_plan(saved: Option<&str>, current: Option<&str>) -> (p: FloodlightPlan)
    ensures
        network_matches(opt_chars(saved), opt_chars(current)) ==> p == FloodlightPlan::Switch(
            true,
        ),
        !network_matches(opt_chars(saved), opt_chars(current)) ==> (p matches FloodlightPlan::Skipped(
            m,
        ) && m@ == "Floodlights skipped: saved home network is not connected"@),
{
    if matches_saved_network(saved, current) {
        FloodlightPlan::Switch(true)
    } else {
        FloodlightPlan::Skipped(
            "Floodlights skipped: saved home network is not connected".to_string(),
        )
    }
}

/// The argument the floodlight script takes.
pub fn floodlight_word(on: bool) -> (w: &'static str)
    ensures
        w@ == (if on {
            "on"@
        } else {
            "off"@
        }),
{
    if on {
        "on"
    } else {
        "off"
    }
}

/// What a finished floodlight script reports, given whether it exited
/// successfully, its standard error and its exit status as text.
pub fn floodlight_outcome(on: bool, success: bool, stderr: &str, status: &str) -> (r: Result<
    String,
    String,
>)
    ensures
        success ==> (r matches Ok(m) && m@ == "Floodlights "@ + (if on {
            "on"@
        } else {
            "off"@
        })),
        !success && trim(stderr@).len() == 0 ==> (r matches Err(m) && m@
            == "Floodlight script exited with "@ + status@),
        !success && trim(stderr@).len() > 0 ==> (r matches Err(m) && m@
            == "Floodlight script failed: "@ + trim(stderr@)),
{
    if success {
        let mut m = chars_of("Floodlights ");
        push_str(&mut m, floodlight_word(on));
        return Ok(string_of(&m));
    }
    let detail = trim_str(stderr);
    if detail.len() == 0 {
        let mut m = chars_of("Floodlight script exited with ");
        push_str(&mut m, status);
        Err(string_of(&m))
    } else {
        let mut m = chars_of("Floodlight script failed: ");
        push_str(&mut m, string_of(&detail).as_str());
        Err(string_of(&m))
    }
}

/// The messages of the parts that succeeded and said something.
pub open spec fn outcome_messages(
    lights: Result<String, String>,
    floodlights: Result<Option<String>, String>,
    shell: Result<String, String>,
) -> Seq<Seq<char>> {
    (match lights {
        Ok(m) => seq![m@],
        Err(_) => seq![],
    }) + (match floodlights {
        Ok(Some(m)) => seq![m@],
        _ => seq![],
    }) + (match shell {
        Ok(m) => seq![m@],
        Err(_) => seq![],
    })
}

/// The errors of the parts that failed.
pub open spec fn outcome_errors(
    lights: Result<String, String>,
    floodlights: Result<Option<String>, String>,
    shell: Result<String, String>,
) -> Seq<Seq<char>> {
    (match lights {
        Err(e) => seq![e@],
        Ok(_) => seq![],
    }) + (match floodlights {
        Err(e) => seq![e@],
        Ok(_) => seq![],
    }) + (match shell {
        Err(e) => seq![e@],
        Ok(_) => seq![],
    })
}

/// An automation succeeds when all three parts do, with their messages
/// joined into sentences; otherwise it fails with every error.
pub fn automation_outcome(
    lights: Result<String, String>,
    floodlights: Result<Option<String>, String>,
    shell: Result<String, String>,
) -> (r: Result<String, String>)
    ensures
        ({
            let errors = outcome_errors(lights, floodlights, shell);
            if errors.len() == 0 {
                r matches Ok(m) && m@ == joined(outcome_messages(lights, floodlights, shell), ". "@)
                    + "."@
            } else {
                r matches Err(m) && m@ == joined(errors, "; "@)
            }
        }),
{
    let ghost messages_spec = outcome_messages(lights, floodlights, shell);
    let ghost errors_spec = outcome_errors(lights, floodlights, shell);
    let mut messages: Vec<String> = Vec::new();
    let mut errors: Vec<String> = Vec::new();
    match lights {
        Ok(m) => messages.push(m),
        Err(e) => errors.push(e),
    }
    match floodlights {
        Ok(Some(m)) => messages.push(m),
        Ok(None) => {},
        Err(e) => errors.push(e),
    }
    match shell {
        Ok(m) => messages.push(m),
        Err(e) => errors.push(e),
    }
    assert(string_views(messages@) =~= messages_spec);
    assert(string_views(errors@) =~= errors_spec);
    if errors.len() == 0 {
        let mut m = chars_of(join_strings(&messages, ". ").as_str());
        m.push('.');
        proof {
            reveal_strlit(".");
        }
        assert(m@ =~= joined(messages_spec, ". "@) + "."@);
        Ok(string_of(&m))
    } else {
        Err(join_strings(&errors, "; "))
    }
}

/// Whether an automation runs in the minute `minute` (`HH:MM`) at `now_millis`.
pub open spec fn is_due(schedule: Schedule, now_millis: i64, minute: Seq<char>) -> bool {
    schedule.spec_is_enabled_at(now_millis) && schedule.time@ == minute
}

/// An automation is due in a minute exactly when it is switched on, any
/// temporary pause has reached its deadline, and its saved time is that
/// minute, all five `HH:MM` characters; so it is due in at most one minute
/// of the day.
pub proof fn lemma_due_only_at_saved_minute(
    s: Schedule,
    now_millis: i64,
    minute: Seq<char>,
    other: Seq<char>,
)
    ensures
        is_due(s, now_millis, minute) <==> (s.enabled && (s.disabled_until matches Some(until)
            ==> now_millis >= until) && s.time@ == minute),
        is_due(s, now_millis, minute) && is_due(s, now_millis, other) ==> minute == other,
{
}

/// The automations due now, by index, in order.
pub fn due_schedules(schedules: &Vec<Schedule>, now_millis: i64, minute: &str) -> (v: Vec<usize>)
    ensures
        forall|k: int| 0 <= k < v@.len() ==> v@[k] < schedules@.len() && is_due(
            schedules@[v@[k] as int],
            now_millis,
            minute@,
        ),
        forall|k: int, l: int| 0 <= k < l < v@.len() ==> v@[k] < v@[l],
        forall|i: int|
            0 <= i < schedules@.len() && is_due(#[trigger] schedules@[i], now_millis, minute@)
                ==> v@.contains(i as usize),
{
    let wanted = chars_of(minute);
    let mut v: Vec<usize> = Vec::new();
    let mut i: usize = 0;
    while i < schedules.len()
        invariant
            i <= schedules@.len(),
            wanted@ == minute@,
            forall|k: int| 0 <= k < v@.len() ==> v@[k] < i && is_due(
                schedules@[v@[k] as int],
                now_millis,
                minute@,
            ),
            forall|k: int, l: int| 0 <= k < l < v@.len() ==> v@[k] < v@[l],
            forall|j: int|
                0 <= j < i && is_due(#[trigger] schedules@[j], now_millis, minute@) ==> v@.contains(
                    j as usize,
                ),
        decreases schedules@.len() - i,
    {
        let s = &schedules[i];
        if s.is_enabled_at(now_millis) && chars_eq(&chars_of(s.time.as_str()), &wanted) {
            let ghost old_v = v@;
            v.push(i);
            assert(v@[v@.len() - 1] == i);
            assert forall|j: int|
                0 <= j < i && is_due(#[trigger] schedules@[j], now_millis, minute@) implies v@.contains(
                j as usize,
            ) by {
                assert(old_v.contains(j as usize));
                let k = choose|k: int| 0 <= k < old_v.len() && old_v[k] == j as usize;
                assert(v@[k] == old_v[k]);
            }
        }
        i += 1;
    }
    v
}

/// The key under which a run of automation `id` on day `today` is remembered.
pub fn trigger_key(today: &str, id: &str) -> (k: String)
    ensures
        k@ == today@ + seq![':'] + id@,
{
    let mut v = chars_of(today);
    v.push(':');
    push_str(&mut v, id);
    string_of(&v)
}

/// The automations already started, so that each runs once a day. No key
/// occurs twice.
pub struct TriggeredRuns {
    keys: Vec<String>,
}

/// Keys remembered on day `today`.
pub open spec fn of_day(today: Seq<char>) -> spec_fn(Seq<char>) -> bool {
    |k: Seq<char>| today.is_prefix_of(k)
}

pub open spec fn distinct(s: Seq<Seq<char>>) -> bool {
    forall|i: int, j: int| 0 <= i < j < s.len() ==> s[i] != s[j]
}

/// Whatever `TriggeredRuns::insert` answered, the key is remembered
/// afterwards, so a second insert of it on the same day answers `false` and
/// the automation does not run twice.
pub proof fn lemma_inserted_key_is_remembered(
    before: Seq<Seq<char>>,
    after: Seq<Seq<char>>,
    key: Seq<char>,
    added: bool,
)
    requires
        added == !before.contains(key),
        added ==> after == before.push(key),
        !added ==> after == before,
    ensures
        after.contains(key),
{
    if added {
        assert(after[before.len() as int] == key);
    }
}

impl TriggeredRuns {
    #[verifier::type_invariant]
    spec fn inv(self) -> bool {
        distinct(string_views(self.keys@))
    }

    pub closed spec fn view(self) -> Seq<Seq<char>> {
        string_views(self.keys@)
    }

    pub fn new() -> (t: Self)
        ensures
            t.view().len() == 0,
    {
        TriggeredRuns { keys: Vec::new() }
    }

    pub fn len(&self) -> (n: usize)
        ensures
            n == self.view().len(),
    {
        self.keys.len()
    }

    /// Whether `key` was remembered.
    pub fn contains(&self, key: &str) -> (b: bool)
        ensures
            b == self.view().contains(key@),
    {
        let wanted = chars_of(key);
        let mut i: usize = 0;
        while i < self.keys.len()
            invariant
                i <= self.keys@.len(),
                wanted@ == key@,
                forall|j: int| 0 <= j < i ==> string_views(self.keys@)[j] != key@,
            decreases self.keys@.len() - i,
        {
            if chars_eq(&chars_of(self.keys[i].as_str()), &wanted) {
                assert(string_views(self.keys@)[i as int] == key@);
                return true;
            }
            i += 1;
        }
        false
    }

    /// Remembers `key`; `true` when it was new.
    pub fn insert(&mut self, key: String) -> (added: bool)
        ensures
            added == !old(self).view().contains(key@),
            final(self).view().to_set() == old(self).view().to_set().insert(key@),
            added ==> final(self).view() == old(self).view().push(key@),
            !added ==> final(self).view() == old(self).view(),
    {
        proof {
            use_type_invariant(&*self);
        }
        if self.contains(key.as_str()) {
            return false;
        }
        let ghost before = string_views(self.keys@);
        let mut keys: Vec<String> = Vec::new();
        std::mem::swap(&mut keys, &mut self.keys);
        keys.push(key);
        let ghost after = string_views(keys@);
        assert(after =~= before.push(key@));
        proof {
            assert forall|x: Seq<char>|
                after.to_set().contains(x) == before.to_set().insert(key@).contains(x) by {
                if x == key@ {
                    assert(after[before.len() as int] == x);
                }
                if before.contains(x) {
                    let j = choose|j: int| 0 <= j < before.len() && before[j] == x;
                    assert(after[j] == x);
                }
            }
            assert(after.to_set() =~= before.to_set().insert(key@));
            assert forall|i: int, j: int| 0 <= i < j < after.len() implies after[i] != after[j] by {
                if j == before.len() {
                    assert(after[i] == before[i]);
                    assert(before.contains(before[i]));
                }
            }
        }
        self.keys = keys;
        true
    }

    /// Forgets every key that does not start with `today`.
    pub fn retain_day(&mut self, today: &str)
        ensures
            final(self).view() == old(self).view().filter(of_day(today@)),
    {
        proof {
            use_type_invariant(&*self);
        }
        let ghost before = string_views(self.keys@);
        let prefix = chars_of(today);
        let mut kept: Vec<String> = Vec::new();
        let mut i: usize = 0;
        while i < self.keys.len()
            invariant
                i <= self.keys@.len(),
                before == string_views(self.keys@),
                distinct(before),
                prefix@ == today@,
                string_views(kept@) == before.take(i as int).filter(of_day(today@)),
            decreases self.keys@.len() - i,
        {
            let k = self.keys[i].clone();
            assert(before.take(i + 1).drop_last() =~= before.take(i as int));
            assert(before.take(i + 1).last() == before[i as int]);
            assert(k@ == before[i as int]);
            let keep = starts_with(&chars_of(k.as_str()), &prefix);
            assert(keep == of_day(today@)(before[i as int])) by {
                if keep {
                    assert(today@ =~= before[i as int].subrange(0, today@.len() as int));
                }
            }
            let ghost tk = before.take(i + 1);
            assert(tk.filter(of_day(today@)) == (if of_day(today@)(tk.last()) {
                tk.drop_last().filter(of_day(today@)).push(tk.last())
            } else {
                tk.drop_last().filter(of_day(today@))
            })) by {
                reveal(Seq::filter);
            }
            if keep {
                let ghost old_kept = string_views(kept@);
                kept.push(k);
                assert(string_views(kept@) =~= old_kept.push(before[i as int]));
            }
            i += 1;
        }
        assert(before.take(self.keys@.len() as int) =~= before);
        proof {
            lemma_filter_distinct(before, of_day(today@));
        }
        self.keys = kept;
    }
}

proof fn lemma_filter_distinct(s: Seq<Seq<char>>, p: spec_fn(Seq<char>) -> bool)
    requires
        distinct(s),
    ensures
        distinct(s.filter(p)),
    decreases s.len(),
{
    if s.len() > 0 {
        let t = s.drop_last();
        let x = s.last();
        assert forall|i: int, j: int| 0 <= i < j < t.len() implies t[i] != t[j] by {
            assert(t[i] == s[i] && t[j] == s[j]);
        }
        lemma_filter_distinct(t, p);
        assert(s.filter(p) == (if p(x) {
            t.filter(p).push(x)
        } else {
            t.filter(p)
        })) by {
            reveal(Seq::filter);
        }
        if p(x) {
            assert(!t.filter(p).contains(x)) by {
                if t.filter(p).contains(x) {
                    t.lemma_filter_contains_rev(p, x);
                    let j = choose|j: int| 0 <= j < t.len() && t[j] == x;
                    assert(s[j] == s[s.len() - 1]);
                }
            }
            let f = t.filter(p);
            assert forall|i: int, j: int| 0 <= i < j < f.push(x).len() implies f.push(x)[i] != f.push(
                x,
            )[j] by {
                if j == f.len() {
                    assert(f.push(x)[i] == f[i]);
                    assert(f.contains(f[i]));
                }
            }
        }
    }
}

} // verus!
