//! A controller for a profile-bound server process: whether the pieces the
//! host offers (a settings modifier, an instance checker, a command executor)
//! are wired in, and a named command list with lookup.
//!
//! The work itself — starting the server, checking for an instance, executing
//! a command — is the host's; the controller decides what may run and which
//! command text is handed over.

use crate::trigger::str_eq;
use vstd::prelude::*;
use vstd::string::StringExecFns;

verus! {

/// The outside collaborator that a [`ServerController`] drives.
pub trait ServerHost {
    /// Start the server.
    fn start_server(&mut self) -> Result<(), String>;

    /// Apply the server's settings.
    fn modify_settings(&mut self) -> Result<(), String>;

    /// Whether an instance of the server is running.
    fn instance_exists(&self) -> bool;

    /// Execute the given raw command.
    fn execute(&mut self, command: String) -> Result<(), String>;
}

/// Resolve a command reference against a named command list: the first entry
/// with the referenced name gives its command, an unlisted reference stands
/// for itself.
pub open spec fn spec_command_of(
    commands: Seq<(Seq<char>, Seq<char>)>,
    reference: Seq<char>,
) -> Seq<char>
    decreases commands.len(),
{
    if commands.len() == 0 {
        reference
    } else if commands[0].0 == reference {
        commands[0].1
    } else {
        spec_command_of(commands.drop_first(), reference)
    }
}

/// A value that names a command to execute.
pub trait CommandReference {
    /// The command text this reference resolves to against a command list.
    spec fn spec_resolved(self, commands: Seq<(Seq<char>, Seq<char>)>) -> Seq<char>;

    /// Resolve the reference against the command list.
    fn get_command(&self, commands_list: &Vec<(String, String)>) -> (r: String)
        ensures
            r@ == self.spec_resolved(commands_view(commands_list@)),
    ;
}

/// The abstract value of a command list.
pub open spec fn commands_view(commands: Seq<(String, String)>) -> Seq<(Seq<char>, Seq<char>)> {
    commands.map_values(|p: (String, String)| (p.0@, p.1@))
}

/// Look up the first command stored under `reference`, or hand the reference
/// back as the command.
fn lookup_command(commands_list: &Vec<(String, String)>, reference: &str) -> (r: String)
    ensures
        r@ == spec_command_of(commands_view(commands_list@), reference@),
{
    let ghost cs = commands_view(commands_list@);
    proof {
        assert(cs.skip(0) =~= cs);
    }
    let mut i: usize = 0;
    while i < commands_list.len()
        invariant
            0 <= i <= commands_list@.len(),
            cs == commands_view(commands_list@),
            spec_command_of(cs, reference@) == spec_command_of(
                cs.skip(i as int),
                reference@,
            ),
        decreases commands_list@.len() - i,
    {
        proof {
            assert(cs.skip(i as int)[0] == cs[i as int]);
            assert(cs.skip(i as int).drop_first() =~= cs.skip(i as int + 1));
        }
        if str_eq(commands_list[i].0.as_str(), reference) {
            return commands_list[i].1.clone();
        }
        i += 1;
    }
    proof {
        assert(cs.skip(i as int) =~= Seq::<(Seq<char>, Seq<char>)>::empty());
    }
    reference.to_owned()
}

impl CommandReference for &str {
    open spec fn spec_resolved(self, commands: Seq<(Seq<char>, Seq<char>)>) -> Seq<char> {
        spec_command_of(commands, self@)
    }

    fn get_command(&self, commands_list: &Vec<(String, String)>) -> (r: String) {
        lookup_command(commands_list, self)
    }
}

impl CommandReference for String {
    open spec fn spec_resolved(self, commands: Seq<(Seq<char>, Seq<char>)>) -> Seq<char> {
        spec_command_of(commands, self@)
    }

    fn get_command(&self, commands_list: &Vec<(String, String)>) -> (r: String) {
        lookup_command(commands_list, self.as_str())
    }
}

/// Every occurrence of `pat` in `s` replaced by `val`, scanning left to right
/// without revisiting replaced text; an empty pattern replaces nothing.
pub open spec fn spec_replace_all(s: Seq<char>, pat: Seq<char>, val: Seq<char>) -> Seq<char>
    decreases s.len(),
{
    if pat.len() == 0 || s.len() < pat.len() {
        s
    } else if s.take(pat.len() as int) == pat {
        val + spec_replace_all(s.skip(pat.len() as int), pat, val)
    } else {
        seq![s[0]] + spec_replace_all(s.drop_first(), pat, val)
    }
}

/// Whether `pat` occurs in `s` at position `i`.
fn matches_at(s: &Vec<char>, i: usize, pat: &Vec<char>) -> (r: bool)
    requires
        i + pat@.len() <= s@.len(),
    ensures
        r == (s@.subrange(i as int, i as int + pat@.len() as int) == pat@),
{
    let slen = s.len();
    let mut k: usize = 0;
    while k < pat.len()
        invariant
            0 <= k <= pat@.len(),
            i + pat@.len() <= s@.len(),
            s@.len() == slen,
            forall|j: int| 0 <= j < k ==> s@[i + j] == pat@[j],
        decreases pat@.len() - k,
    {
        if s[i + k] != pat[k] {
            proof {
                let sub = s@.subrange(i as int, i as int + pat@.len() as int);
                assert(sub[k as int] != pat@[k as int]);
            }
            return false;
        }
        k += 1;
    }
    proof {
        assert(s@.subrange(i as int, i as int + pat@.len() as int) =~= pat@);
    }
    true
}

/// Replace every occurrence of `pat` in `s` by `val`.
fn replace_all_chars(s: &Vec<char>, pat: &Vec<char>, val: &Vec<char>) -> (r: Vec<char>)
    ensures
        r@ == spec_replace_all(s@, pat@, val@),
{
    let mut out: Vec<char> = Vec::new();
    let mut i: usize = 0;
    proof {
        assert(s@.skip(0) =~= s@);
        assert(out@ =~= Seq::<char>::empty());
    }
    while i < s.len()
        invariant
            0 <= i <= s@.len(),
            spec_replace_all(s@, pat@, val@) == out@ + spec_replace_all(
                s@.skip(i as int),
                pat@,
                val@,
            ),
        decreases s@.len() - i,
    {
        let ghost rest = s@.skip(i as int);
        if pat.len() > 0 && s.len() - i >= pat.len() && matches_at(s, i, pat) {
            proof {
                assert(rest.take(pat@.len() as int) =~= s@.subrange(
                    i as int,
                    i as int + pat@.len() as int,
                ));
                assert(rest.skip(pat@.len() as int) =~= s@.skip(i as int + pat@.len() as int));
            }
            let mut k: usize = 0;
            let ghost out_before = out@;
            while k < val.len()
                invariant
                    0 <= k <= val@.len(),
                    out@ == out_before + val@.take(k as int),
                decreases val@.len() - k,
            {
                out.push(val[k]);
                proof {
                    assert(val@.take(k as int + 1) =~= val@.take(k as int).push(val@[k as int]));
                }
                k += 1;
            }
            proof {
                assert(val@.take(val@.len() as int) =~= val@);
                assert(out@ =~= out_before + val@);
            }
            i += pat.len();
        } else {
            proof {
                assert(rest[0] == s@[i as int]);
                assert(rest.drop_first() =~= s@.skip(i as int + 1));
                if pat@.len() > 0 && rest.len() >= pat@.len() {
                    assert(rest.take(pat@.len() as int) =~= s@.subrange(
                        i as int,
                        i as int + pat@.len() as int,
                    ));
                }
            }
            out.push(s[i]);
            i += 1;
        }
    }
    proof {
        assert(s@.skip(i as int) =~= Seq::<char>::empty());
        assert(out@ =~= out@ + spec_replace_all(s@.skip(i as int), pat@, val@));
    }
    out
}

/// The character for one decimal digit.
pub open spec fn spec_digit(d: nat) -> char {
    if d == 0 {
        '0'
    } else if d == 1 {
        '1'
    } else if d == 2 {
        '2'
    } else if d == 3 {
        '3'
    } else if d == 4 {
        '4'
    } else if d == 5 {
        '5'
    } else if d == 6 {
        '6'
    } else if d == 7 {
        '7'
    } else if d == 8 {
        '8'
    } else {
        '9'
    }
}

/// The decimal digits of `n`, most significant first.
pub open spec fn spec_decimal(n: nat) -> Seq<char>
    decreases n,
{
    if n < 10 {
        seq![spec_digit(n)]
    } else {
        spec_decimal(n / 10) + seq![spec_digit(n % 10)]
    }
}

/// The character for one decimal digit.
fn digit_char(d: usize) -> (r: char)
    requires
        d < 10,
    ensures
        r == spec_digit(d as nat),
{
    match d {
        0 => '0',
        1 => '1',
        2 => '2',
        3 => '3',
        4 => '4',
        5 => '5',
        6 => '6',
        7 => '7',
        8 => '8',
        _ => '9',
    }
}

/// The decimal digits of `n`, most significant first.
fn decimal_chars(n: usize) -> (r: Vec<char>)
    ensures
        r@ == spec_decimal(n as nat),
    decreases n,
{
    if n < 10 {
        let mut r: Vec<char> = Vec::new();
        r.push(digit_char(n));
        proof {
            assert(r@ =~= spec_decimal(n as nat));
        }
        r
    } else {
        let mut r = decimal_chars(n / 10);
        r.push(digit_char(n % 10));
        proof {
            assert(r@ =~= spec_decimal(n as nat));
        }
        r
    }
}

/// The characters of a string slice, in order.
fn str_chars(s: &str) -> (r: Vec<char>)
    ensures
        r@ == s@,
{
    let n = s.unicode_len();
    let mut r: Vec<char> = Vec::new();
    let mut i: usize = 0;
    while i < n
        invariant
            0 <= i <= n,
            n == s@.len(),
            r@ == s@.take(i as int),
        decreases n - i,
    {
        r.push(s.get_char(i));
        proof {
            assert(s@.take(i as int + 1) =~= s@.take(i as int).push(s@[i as int]));
        }
        i += 1;
    }
    proof {
        assert(s@.take(i as int) =~= s@);
    }
    r
}

/// Relies on `String`'s `FromIterator` over characters: the characters of the
/// result are exactly those collected.
#[verifier::external_body]
fn chars_to_string(chars: &Vec<char>) -> (r: String)
    ensures
        r@ == chars@,
{
    chars.iter().collect()
}

/// `cmd` with the argument placeholders below index `k` substituted, highest
/// index first, so that a placeholder of two digits is never clipped by a
/// one-digit substitution.
pub open spec fn spec_substituted(cmd: Seq<char>, args: Seq<Seq<char>>, k: nat) -> Seq<char>
    decreases k,
{
    if k == 0 || k > args.len() {
        cmd
    } else {
        spec_substituted(
            spec_replace_all(cmd, seq!['$'] + spec_decimal((k - 1) as nat), args[k - 1]),
            args,
            (k - 1) as nat,
        )
    }
}

impl<'s> CommandReference for (&'s str, &'s [&'s str]) {
    open spec fn spec_resolved(self, commands: Seq<(Seq<char>, Seq<char>)>) -> Seq<char> {
        spec_substituted(
            spec_command_of(commands, self.0@),
            Seq::new(self.1@.len(), |i: int| self.1@[i]@),
            self.1@.len(),
        )
    }

    fn get_command(&self, commands_list: &Vec<(String, String)>) -> (r: String) {
        let ghost args_view = Seq::new(self.1@.len(), |i: int| self.1@[i]@);
        let base = lookup_command(commands_list, self.0);
        let mut cmd = str_chars(base.as_str());
        // Substituting the highest index first keeps a longer placeholder from
        // being clipped by the substitution of its prefix.
        let mut k: usize = self.1.len();
        while k > 0
            invariant
                0 <= k <= self.1@.len(),
                args_view == Seq::new(self.1@.len(), |i: int| self.1@[i]@),
                spec_substituted(cmd@, args_view, k as nat) == spec_substituted(
                    spec_command_of(commands_view(commands_list@), self.0@),
                    args_view,
                    self.1@.len(),
                ),
            decreases k,
        {
            k -= 1;
            let mut pattern: Vec<char> = Vec::new();
            pattern.push('$');
            let mut digits = decimal_chars(k);
            pattern.append(&mut digits);
            proof {
                assert(pattern@ =~= seq!['$'] + spec_decimal(k as nat));
            }
            let arg: &str = *vstd::slice::slice_index_get(self.1, k);
            let value = str_chars(arg);
            proof {
                assert(value@ == args_view[k as int]);
            }
            cmd = replace_all_chars(&cmd, &pattern, &value);
        }
        proof {
            assert(spec_substituted(cmd@, args_view, 0) == cmd@);
        }
        chars_to_string(&cmd)
    }
}

/// What the host offers for one server, and the named commands it accepts.
pub struct ServerController {
    /// Whether the host wired in a settings modifier.
    pub has_settings_modifier: bool,
    /// Whether the host wired in an instance-existence checker.
    pub has_instance_existance_checker: bool,
    /// Whether the host wired in a command executor.
    pub has_command_executor: bool,
    /// The named commands: a name and the command it stands for.
    pub commands: Vec<(String, String)>,
}

impl ServerController {
    /// A controller with only the starter wired in (every host can start its
    /// server) and no named commands.
    pub fn new() -> (r: ServerController)
        ensures
            !r.has_settings_modifier,
            !r.has_instance_existance_checker,
            !r.has_command_executor,
            r.commands@ == Seq::<(String, String)>::empty(),
    {
        ServerController {
            has_settings_modifier: false,
            has_instance_existance_checker: false,
            has_command_executor: false,
            commands: Vec::new(),
        }
    }

    /// Return self with the host's settings modifier wired in.
    pub fn with_settings_modifier(self) -> (r: ServerController)
        ensures
            r == (ServerController { has_settings_modifier: true, ..self }),
    {
        ServerController { has_settings_modifier: true, ..self }
    }

    /// Return self with the host's instance-existence checker wired in.
    pub fn with_instance_existance_checker(self) -> (r: ServerController)
        ensures
            r == (ServerController { has_instance_existance_checker: true, ..self }),
    {
        ServerController { has_instance_existance_checker: true, ..self }
    }

    /// Return self with the host's command executor wired in.
    pub fn with_command_executor(self) -> (r: ServerController)
        ensures
            r == (ServerController { has_command_executor: true, ..self }),
    {
        ServerController { has_command_executor: true, ..self }
    }

    /// Return self with named commands appended: the first entry is the name,
    /// the second the command it stands for.
    pub fn with_commands(self, commands: &Vec<(String, String)>) -> (r: ServerController)
        ensures
            r.commands@.len() == self.commands@.len() + commands@.len(),
            commands_view(r.commands@) == commands_view(self.commands@) + commands_view(
                commands@,
            ),
            r.has_settings_modifier == self.has_settings_modifier,
            r.has_instance_existance_checker == self.has_instance_existance_checker,
            r.has_command_executor == self.has_command_executor,
    {
        let mut s = self;
        let mut i: usize = 0;
        while i < commands.len()
            invariant
                0 <= i <= commands@.len(),
                s.commands@.len() == self.commands@.len() + i,
                commands_view(s.commands@) =~= commands_view(self.commands@) + commands_view(
                    commands@.take(i as int),
                ),
                s.has_settings_modifier == self.has_settings_modifier,
                s.has_instance_existance_checker == self.has_instance_existance_checker,
                s.has_command_executor == self.has_command_executor,
            decreases commands@.len() - i,
        {
            let name = commands[i].0.clone();
            let command = commands[i].1.clone();
            let ghost before = s.commands@;
            s.commands.push((name, command));
            proof {
                assert(commands@.take(i as int + 1) =~= commands@.take(i as int).push(
                    commands@[i as int],
                ));
                assert(commands_view(s.commands@).len() == self.commands@.len() + i + 1);
                assert(commands_view(s.commands@)[self.commands@.len() + i] == (
                    commands@[i as int].0@,
                    commands@[i as int].1@,
                ));
                assert(commands_view(commands@.take(i as int + 1))[i as int] == (
                    commands@[i as int].0@,
                    commands@[i as int].1@,
                ));
                let old_len = self.commands@.len() as int;
                let rhs = commands_view(self.commands@) + commands_view(
                    commands@.take(i as int + 1),
                );
                assert forall|k: int|
                    0 <= k < old_len + i + 1 implies commands_view(s.commands@)[k] == rhs[k] by {
                    if k < old_len + i {
                        assert(s.commands@[k] == before[k]);
                        assert(commands_view(s.commands@)[k] == (before[k].0@, before[k].1@));
                        assert(commands_view(before)[k] == (before[k].0@, before[k].1@));
                        if k >= old_len {
                            assert(commands@.take(i as int + 1)[k - old_len] == commands@.take(
                                i as int,
                            )[k - old_len]);
                            assert(commands_view(commands@.take(i as int + 1))[k - old_len]
                                == commands_view(commands@.take(i as int))[k - old_len]);
                        }
                    }
                }
                assert(commands_view(s.commands@) =~= rhs);
            }
            i += 1;
        }
        proof {
            assert(commands@.take(i as int) =~= commands@);
            assert(commands_view(s.commands@) =~= commands_view(self.commands@) + commands_view(
                commands@,
            ));
        }
        s
    }

    /// Whether an instance of the server exists: what the host's checker says,
    /// and `false` when no checker is wired in.
    pub fn instance_exists<H: ServerHost>(&self, host: &H) -> (r: bool)
        ensures
            !self.has_instance_existance_checker ==> !r,
    {
        if self.has_instance_existance_checker {
            host.instance_exists()
        } else {
            false
        }
    }

    /// The start decision, given whether an instance already exists: an
    /// existing instance refuses the start, otherwise the host starts the
    /// server and its result is returned.
    pub fn start_with_status<H: ServerHost>(&self, host: &mut H, instance_running: bool) -> (r:
        Result<(), String>)
        ensures
            instance_running ==> (r matches Err(m) && m@
                == "Could not start server, server already running."@),
    {
        if instance_running {
            Err(String::from_str("Could not start server, server already running."))
        } else {
            host.start_server()
        }
    }

    /// Start the server, unless an instance of it already exists: with no
    /// checker wired in, the start is always attempted. The outcome is the
    /// host's; the decision itself is [`Self::start_with_status`].
    pub fn start<H: ServerHost>(&self, host: &mut H) -> (r: Result<(), String>) {
        let running = self.instance_exists(host);
        self.start_with_status(host, running)
    }

    /// Resolve the referenced command and have the host execute it; an absent
    /// executor is refused with exactly this message.
    pub fn execute_command<T: CommandReference, H: ServerHost>(
        &self,
        host: &mut H,
        command_reference: T,
    ) -> (r: Result<(), String>)
        ensures
            !self.has_command_executor ==> (r matches Err(m) && m@
                == "Could not execute command, command executor does not exist."@),
    {
        if self.has_command_executor {
            let raw_command = command_reference.get_command(&self.commands);
            host.execute(raw_command)
        } else {
            Err(String::from_str("Could not execute command, command executor does not exist."))
        }
    }
}

} // verus!
