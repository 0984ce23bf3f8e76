//! The department roster and its command interpreter.
//!
//! A [`Roster`] maps department names to the people filed under them.  One
//! line of input holds one command:
//!
//! * `add <name> <sep> <department>` files `<name>` under `<department>`,
//!   replacing whatever was filed there before (the separator token is
//!   never examined);
//! * `list <department>` prints the department's people sorted and numbered;
//! * `list-all` prints everybody, sorted and numbered, departments merged.
//!
//! Command words are matched without regard to ASCII case; department and
//! person names are matched exactly.  Any other line is ignored: the roster
//! is unchanged and nothing is printed.

use crate::sorting::{lemma_sort_idempotent, lex_leq_fn, sort_strings};
use crate::text::{dec_str, str_ci_eq, str_eq, strs_ci_eq, tokenize, tokens_of, u64_to_string};
use vstd::prelude::*;

verus! {

/// The abstract value of a [`Roster`]: department entries in the order they
/// were created, each a department name with the members filed under it.
pub type RosterModel = Seq<(Seq<char>, Seq<Seq<char>>)>;

/// One department and the people filed under it.
struct DeptEntry {
    name: String,
    members: Vec<String>,
}

/// An in-memory directory of people grouped by department.
pub struct Roster {
    entries: Vec<DeptEntry>,
}

impl View for Roster {
    type V = RosterModel;

    closed spec fn view(&self) -> RosterModel {
        Seq::new(
            self.entries@.len(),
            |i: int| (self.entries@[i].name@, self.entries@[i].members.deep_view()),
        )
    }
}

impl Roster {
    /// Department names never repeat among the entries.
    pub open spec fn wf(&self) -> bool {
        forall|i: int, j: int| 0 <= i < j < self@.len() ==> self@[i].0 != self@[j].0
    }

    /// Creates an empty roster.
    pub fn new() -> (r: Roster)
        ensures
            r@ == Seq::<(Seq<char>, Seq<Seq<char>>)>::empty(),
            r.wf(),
    {
        let r = Roster { entries: Vec::new() };
        proof {
            assert(r@ =~= Seq::<(Seq<char>, Seq<Seq<char>>)>::empty());
        }
        r
    }

    /// The position of the entry for `dept`, if there is one.
    fn find(&self, dept: &str) -> (r: Option<usize>)
        ensures
            match r {
                Some(i) => i < self@.len() && dept_index(self@, dept@) == i as int,
                None => dept_index(self@, dept@) == -1,
            },
    {
        let mut i: usize = 0;
        while i < self.entries.len()
            invariant
                i <= self.entries@.len(),
                self@.len() == self.entries@.len(),
                forall|k: int| 0 <= k < i ==> self@[k].0 != dept@,
            decreases self.entries@.len() - i,
        {
            if str_eq(self.entries[i].name.as_str(), dept) {
                proof {
                    assert(self@[i as int].0 == dept@);
                    lemma_dept_index_first(self@, dept@, i as int);
                }
                return Some(i);
            }
            i += 1;
        }
        proof {
            lemma_dept_index_absent(self@, dept@);
        }
        None
    }
}

/// The position of the first entry of `v` named `name`, or `-1` when no
/// entry carries that name.
pub open spec fn dept_index(v: RosterModel, name: Seq<char>) -> int
    decreases v.len(),
{
    if v.len() == 0 {
        -1
    } else if v[0].0 == name {
        0
    } else {
        let r = dept_index(v.drop_first(), name);
        if r == -1 {
            -1
        } else {
            r + 1
        }
    }
}

/// `dept_index` points at the first entry with the given name.
pub proof fn lemma_dept_index_first(v: RosterModel, name: Seq<char>, i: int)
    requires
        0 <= i < v.len(),
        v[i].0 == name,
        forall|k: int| 0 <= k < i ==> v[k].0 != name,
    ensures
        dept_index(v, name) == i,
    decreases i,
{
    if i > 0 {
        lemma_dept_index_first(v.drop_first(), name, i - 1);
    }
}

/// A name carried by no entry has no index.
pub proof fn lemma_dept_index_absent(v: RosterModel, name: Seq<char>)
    requires
        forall|k: int| 0 <= k < v.len() ==> v[k].0 != name,
    ensures
        dept_index(v, name) == -1,
    decreases v.len(),
{
    if v.len() > 0 {
        lemma_dept_index_absent(v.drop_first(), name);
    }
}

/// What `dept_index` returns: `-1` exactly when the name is absent, else
/// the position of the first entry with that name.
pub proof fn lemma_dept_index_props(v: RosterModel, name: Seq<char>)
    ensures
        dept_index(v, name) == -1 ==> (forall|k: int| 0 <= k < v.len() ==> v[k].0 != name),
        dept_index(v, name) != -1 ==> {
            let i = dept_index(v, name);
            &&& 0 <= i < v.len()
            &&& v[i].0 == name
            &&& forall|k: int| 0 <= k < i ==> v[k].0 != name
        },
    decreases v.len(),
{
    if v.len() > 0 {
        lemma_dept_index_props(v.drop_first(), name);
        if v[0].0 != name {
            let rest = v.drop_first();
            let r = dept_index(rest, name);
            if r == -1 {
                assert forall|k: int| 0 <= k < v.len() implies v[k].0 != name by {
                    if k > 0 {
                        assert(rest[k - 1] == v[k]);
                    }
                }
            } else {
                assert(rest[r] == v[r + 1]);
                assert forall|k: int| 0 <= k < r + 1 implies v[k].0 != name by {
                    if k > 0 {
                        assert(rest[k - 1] == v[k]);
                    }
                }
            }
        }
    }
}

/// `dept_index` looks only at the entry names.
pub proof fn lemma_dept_index_same_names(v1: RosterModel, v2: RosterModel, name: Seq<char>)
    requires
        v1.len() == v2.len(),
        forall|k: int| 0 <= k < v1.len() ==> v1[k].0 == v2[k].0,
    ensures
        dept_index(v1, name) == dept_index(v2, name),
    decreases v1.len(),
{
    if v1.len() > 0 {
        lemma_dept_index_same_names(v1.drop_first(), v2.drop_first(), name);
    }
}

/// The confirmation printed by a successful `add` command.
pub open spec fn added_message(person: Seq<char>, dept: Seq<char>) -> Seq<char> {
    "Added "@ + person + " to the "@ + dept + " department"@
}

/// The answer to `list` for a department nobody was filed under.
pub open spec fn not_found_message(dept: Seq<char>) -> Seq<char> {
    "Nobody was found in the "@ + dept + " department"@
}

/// The answer to `list-all` on an empty roster.
pub open spec fn nobody_employed_message() -> Seq<char> {
    "Nobody is currently employed to any department."@
}

/// One line of a listing: the 1-based ordinal, a dot, a space, the name.
pub open spec fn numbered_line(ordinal: nat, name: Seq<char>) -> Seq<char> {
    dec_str(ordinal) + ". "@ + name
}

/// The listing of `names` in order, numbered from 1.
pub open spec fn numbered_lines(names: Seq<Seq<char>>) -> Seq<Seq<char>> {
    Seq::new(names.len(), |i: int| numbered_line((i + 1) as nat, names[i]))
}

/// The roster after `add`: the department's entry is created or overwritten,
/// in either case holding `person` alone.
pub open spec fn roster_add(v: RosterModel, dept: Seq<char>, person: Seq<char>) -> RosterModel {
    let i = dept_index(v, dept);
    if i >= 0 {
        v.update(i, (dept, seq![person]))
    } else {
        v.push((dept, seq![person]))
    }
}

/// Builds [`added_message`].
fn added_message_string(person: &str, dept: &str) -> (r: String)
    ensures
        r@ == added_message(person@, dept@),
{
    let mut s = String::from_str("Added ");
    s.append(person);
    s.append(" to the ");
    s.append(dept);
    s.append(" department");
    s
}

/// Builds [`not_found_message`].
fn not_found_message_string(dept: &str) -> (r: String)
    ensures
        r@ == not_found_message(dept@),
{
    let mut s = String::from_str("Nobody was found in the ");
    s.append(dept);
    s.append(" department");
    s
}

/// Files `name` under `department`, replacing anyone filed there before,
/// and returns the confirmation line.
pub fn handle_add_command(name: &str, department: &str, roster: &mut Roster) -> (out: String)
    requires
        old(roster).wf(),
    ensures
        final(roster)@ == roster_add(old(roster)@, department@, name@),
        final(roster).wf(),
        out@ == added_message(name@, department@),
{
    let entry = DeptEntry { name: String::from_str(department), members: vec![
        String::from_str(name),
    ] };
    proof {
        assert(entry.members.deep_view() =~= seq![name@]);
    }
    let ghost pre = roster@;
    match roster.find(department) {
        Some(i) => {
            proof {
                lemma_dept_index_props(pre, department@);
                assert(pre[dept_index(pre, department@)].0 == department@);
                assert(roster.entries@.len() == pre.len());
            }
            roster.entries[i] = entry;
            proof {
                assert(roster@ =~= pre.update(dept_index(pre, department@), (
                    department@,
                    seq![name@],
                )));
            }
        },
        None => {
            roster.entries.push(entry);
            proof {
                assert(roster@ =~= pre.push((department@, seq![name@])));
                lemma_dept_index_props(pre, department@);
            }
        },
    }
    added_message_string(name, department)
}

/// Numbers `names` from 1, one line per name.
pub fn render_numbered(names: &Vec<String>) -> (out: Vec<String>)
    ensures
        out.deep_view() == numbered_lines(names.deep_view()),
{
    let mut out: Vec<String> = Vec::new();
    let mut i: usize = 0;
    while i < names.len()
        invariant
            i <= names@.len(),
            out.deep_view().len() == i,
            forall|k: int|
                0 <= k < i ==> out.deep_view()[k] == numbered_line(
                    (k + 1) as nat,
                    names.deep_view()[k],
                ),
        decreases names@.len() - i,
    {
        let ghost pre = out.deep_view();
        let mut line = u64_to_string((i + 1) as u64);
        line.append(". ");
        line.append(names[i].as_str());
        proof {
            assert(line@ == numbered_line((i + 1) as nat, names.deep_view()[i as int]));
        }
        out.push(line);
        proof {
            assert(out.deep_view() =~= pre.push(line@));
        }
        i += 1;
    }
    proof {
        assert(out.deep_view() =~= numbered_lines(names.deep_view()));
    }
    out
}

/// The roster after `list`: the listed department's members are left in
/// sorted order (sorting works on the stored collection).
pub open spec fn roster_after_list(v: RosterModel, dept: Seq<char>) -> RosterModel {
    let i = dept_index(v, dept);
    if i >= 0 {
        v.update(i, (v[i].0, v[i].1.sort_by(lex_leq_fn())))
    } else {
        v
    }
}

/// The lines printed by `list`.
pub open spec fn list_output(v: RosterModel, dept: Seq<char>) -> Seq<Seq<char>> {
    let i = dept_index(v, dept);
    if i >= 0 {
        numbered_lines(v[i].1.sort_by(lex_leq_fn()))
    } else {
        seq![not_found_message(dept)]
    }
}

/// Every person filed in `v`, in entry order.
pub open spec fn all_members(v: RosterModel) -> Seq<Seq<char>>
    decreases v.len(),
{
    if v.len() == 0 {
        Seq::empty()
    } else {
        v[0].1 + all_members(v.drop_first())
    }
}

/// The lines printed by `list-all`.
pub open spec fn list_all_output(v: RosterModel) -> Seq<Seq<char>> {
    if v.len() == 0 {
        seq![nobody_employed_message()]
    } else {
        numbered_lines(all_members(v).sort_by(lex_leq_fn()))
    }
}

/// Extending the prefix by one entry appends that entry's members.
proof fn lemma_all_members_take_succ(v: RosterModel, i: int)
    requires
        0 <= i < v.len(),
    ensures
        all_members(v.take(i + 1)) == all_members(v.take(i)) + v[i].1,
    decreases i,
{
    if i == 0 {
        let single = v.take(1);
        assert(single.len() == 1 && single[0] == v[0]);
        assert(single.drop_first() =~= Seq::<(Seq<char>, Seq<Seq<char>>)>::empty());
        assert(all_members(single) == v[0].1 + all_members(single.drop_first()));
        assert(all_members(single.drop_first()) == Seq::<Seq<char>>::empty());
        assert(v[0].1 + Seq::<Seq<char>>::empty() =~= v[0].1);
        assert(v.take(0) =~= Seq::<(Seq<char>, Seq<Seq<char>>)>::empty());
        assert(all_members(v.take(0)) == Seq::<Seq<char>>::empty());
        assert(Seq::<Seq<char>>::empty() + v[0].1 =~= v[0].1);
    } else {
        let rest = v.drop_first();
        lemma_all_members_take_succ(rest, i - 1);
        assert(v.take(i + 1).drop_first() =~= rest.take(i));
        assert(v.take(i).drop_first() =~= rest.take(i - 1));
        assert(all_members(v.take(i + 1)) == v[0].1 + all_members(rest.take(i)));
        assert(all_members(v.take(i)) == v[0].1 + all_members(rest.take(i - 1)));
        assert(rest[i - 1] == v[i]);
        assert(v[0].1 + (all_members(rest.take(i - 1)) + v[i].1) =~= (v[0].1 + all_members(
            rest.take(i - 1),
        )) + v[i].1);
    }
}

/// Builds [`nobody_employed_message`].
fn nobody_employed_string() -> (r: String)
    ensures
        r@ == nobody_employed_message(),
{
    String::from_str("Nobody is currently employed to any department.")
}

/// Sorts the members of `department` in place and returns them numbered
/// from 1, or reports that nobody was found there.
pub fn handle_list_department(department: &str, roster: &mut Roster) -> (out: Vec<String>)
    requires
        old(roster).wf(),
    ensures
        final(roster)@ == roster_after_list(old(roster)@, department@),
        final(roster).wf(),
        out.deep_view() == list_output(old(roster)@, department@),
{
    let ghost pre = roster@;
    match roster.find(department) {
        Some(i) => {
            proof {
                lemma_dept_index_props(pre, department@);
                assert(roster.entries@.len() == pre.len());
            }
            let ghost preentries = roster.entries@;
            let mut e = roster.entries.remove(i);
            sort_strings(&mut e.members);
            roster.entries.insert(i, e);
            proof {
                assert(roster.entries@ =~= preentries.update(i as int, roster.entries@[i as int]));
                assert(roster@ =~= pre.update(i as int, (
                    pre[i as int].0,
                    pre[i as int].1.sort_by(lex_leq_fn()),
                )));
            }
            let out = render_numbered(&roster.entries[i].members);
            proof {
                assert(out.deep_view() == list_output(pre, department@));
            }
            out
        },
        None => {
            let msg = not_found_message_string(department);
            let ghost msgv = msg@;
            let out = vec![msg];
            proof {
                assert(out.deep_view() =~= seq![msgv]);
            }
            out
        },
    }
}

/// Returns everyone in the roster, merged across departments, sorted and
/// numbered from 1; on an empty roster, reports that nobody is employed.
pub fn handle_list_company(roster: &Roster) -> (out: Vec<String>)
    ensures
        out.deep_view() == list_all_output(roster@),
{
    if roster.entries.len() == 0 {
        let msg = nobody_employed_string();
        let ghost msgv = msg@;
        let out = vec![msg];
        proof {
            assert(out.deep_view() =~= seq![msgv]);
        }
        out
    } else {
        let mut all: Vec<String> = Vec::new();
        let mut i: usize = 0;
        proof {
            assert(roster@.take(0) =~= Seq::<(Seq<char>, Seq<Seq<char>>)>::empty());
            assert(all.deep_view() =~= Seq::<Seq<char>>::empty());
        }
        while i < roster.entries.len()
            invariant
                i <= roster@.len(),
                roster@.len() == roster.entries@.len(),
                all.deep_view() == all_members(roster@.take(i as int)),
            decreases roster@.len() - i,
        {
            let members = &roster.entries[i].members;
            let ghost base = all.deep_view();
            let mut j: usize = 0;
            proof {
                assert(roster@[i as int].1 == members.deep_view());
                assert(members.deep_view().take(0) =~= Seq::<Seq<char>>::empty());
                assert(base + Seq::<Seq<char>>::empty() =~= base);
            }
            while j < members.len()
                invariant
                    j <= members@.len(),
                    all.deep_view() == base + members.deep_view().take(j as int),
                decreases members@.len() - j,
            {
                let ghost predv = all.deep_view();
                all.push(members[j].clone());
                proof {
                    assert(all.deep_view() =~= predv.push(members.deep_view()[j as int]));
                    assert(members.deep_view().take(j + 1 as int) =~= members.deep_view().take(
                        j as int,
                    ).push(members.deep_view()[j as int]));
                    assert(base + members.deep_view().take(j as int).push(
                        members.deep_view()[j as int],
                    ) =~= (base + members.deep_view().take(j as int)).push(
                        members.deep_view()[j as int],
                    ));
                }
                j += 1;
            }
            proof {
                assert(members.deep_view().take(members@.len() as int) =~= members.deep_view());
                lemma_all_members_take_succ(roster@, i as int);
            }
            i += 1;
        }
        proof {
            assert(roster@.take(roster@.len() as int) =~= roster@);
        }
        sort_strings(&mut all);
        render_numbered(&all)
    }
}

/// The shape of an `add` command: four tokens, the first being `add` up to
/// ASCII case (the third token is a separator that is never examined).
pub open spec fn is_add_command(ts: Seq<Seq<char>>) -> bool {
    ts.len() == 4 && strs_ci_eq(ts[0], "add"@)
}

/// The shape of a `list` command: two tokens, the first being `list` up to
/// ASCII case.
pub open spec fn is_list_command(ts: Seq<Seq<char>>) -> bool {
    ts.len() == 2 && strs_ci_eq(ts[0], "list"@)
}

/// The shape of a `list-all` command: one token, `list-all` up to ASCII case.
pub open spec fn is_list_all_command(ts: Seq<Seq<char>>) -> bool {
    ts.len() == 1 && strs_ci_eq(ts[0], "list-all"@)
}

/// The roster after one command line: `add` files a person, `list` leaves
/// the listed department sorted, and every other line changes nothing.
pub open spec fn roster_step(v: RosterModel, line: Seq<char>) -> RosterModel {
    let ts = tokens_of(line);
    if is_add_command(ts) {
        roster_add(v, ts[3], ts[1])
    } else if is_list_command(ts) {
        roster_after_list(v, ts[1])
    } else {
        v
    }
}

/// The lines printed in answer to one command line; an unrecognized line
/// prints nothing.
pub open spec fn command_output(v: RosterModel, line: Seq<char>) -> Seq<Seq<char>> {
    let ts = tokens_of(line);
    if is_add_command(ts) {
        seq![added_message(ts[1], ts[3])]
    } else if is_list_command(ts) {
        list_output(v, ts[1])
    } else if is_list_all_command(ts) {
        list_all_output(v)
    } else {
        Seq::empty()
    }
}

/// Interprets one command line against the roster and returns the lines to
/// print, in order.
pub fn handle_command(command: &str, roster: &mut Roster) -> (out: Vec<String>)
    requires
        old(roster).wf(),
    ensures
        final(roster)@ == roster_step(old(roster)@, command@),
        final(roster).wf(),
        out.deep_view() == command_output(old(roster)@, command@),
{
    let tokens = tokenize(command);
    proof {
        assert(forall|k: int|
            0 <= k < tokens@.len() ==> tokens.deep_view()[k] == #[trigger] tokens@[k]@);
    }
    if tokens.len() == 4 && str_ci_eq(tokens[0].as_str(), "add") {
        let msg = handle_add_command(tokens[1].as_str(), tokens[3].as_str(), roster);
        let ghost msgv = msg@;
        let out = vec![msg];
        proof {
            assert(out.deep_view() =~= seq![msgv]);
        }
        out
    } else if tokens.len() == 2 && str_ci_eq(tokens[0].as_str(), "list") {
        handle_list_department(tokens[1].as_str(), roster)
    } else if tokens.len() == 1 && str_ci_eq(tokens[0].as_str(), "list-all") {
        handle_list_company(roster)
    } else {
        let out: Vec<String> = Vec::new();
        proof {
            assert(out.deep_view() =~= Seq::<Seq<char>>::empty());
        }
        out
    }
}

/// A command line whose token count is not 1, 2, or 4 leaves the roster
/// unchanged and produces no output.
pub proof fn lemma_malformed_line_ignored(v: RosterModel, line: Seq<char>)
    requires
        tokens_of(line).len() != 1,
        tokens_of(line).len() != 2,
        tokens_of(line).len() != 4,
    ensures
        roster_step(v, line) == v,
        command_output(v, line) == Seq::<Seq<char>>::empty(),
{
}

/// Listing is idempotent: a second `list` of the same department prints the
/// same lines as the first and leaves the roster exactly as the first left
/// it.
pub proof fn lemma_list_idempotent(v: RosterModel, line: Seq<char>)
    requires
        is_list_command(tokens_of(line)),
    ensures
        roster_step(roster_step(v, line), line) == roster_step(v, line),
        command_output(roster_step(v, line), line) == command_output(v, line),
{
    let ts = tokens_of(line);
    let d = ts[1];
    let i = dept_index(v, d);
    let v1 = roster_after_list(v, d);
    if i >= 0 {
        lemma_dept_index_props(v, d);
        assert(v1 == v.update(i, (v[i].0, v[i].1.sort_by(lex_leq_fn()))));
        assert(v1.len() == v.len());
        assert(forall|k: int| 0 <= k < v.len() ==> v1[k].0 == v[k].0);
        lemma_dept_index_same_names(v1, v, d);
        assert(dept_index(v1, d) == i);
        lemma_sort_idempotent(v[i].1);
        assert(v1[i].1.sort_by(lex_leq_fn()) == v1[i].1);
        assert(v1.update(i, (v1[i].0, v1[i].1.sort_by(lex_leq_fn()))) =~= v1);
        assert(roster_after_list(v1, d) == v1);
        assert(list_output(v1, d) == numbered_lines(v1[i].1.sort_by(lex_leq_fn())));
        assert(list_output(v, d) == numbered_lines(v[i].1.sort_by(lex_leq_fn())));
    }
}

} // verus!
