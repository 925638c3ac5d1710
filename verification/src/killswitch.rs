//! The emergency killswitch: a global pause with a timelocked unpause, and
//! per-module and per-function pause flags.
//!
//! Every mutating operation is the stored admin's: the host must verify the
//! admin's authorization (see [`EmergencyKillswitch::admin`]) before calling
//! it; the operations themselves check initialization and the rules below.

use vstd::prelude::*;
use crate::common::Address;

verus! {

/// Killswitch errors.
#[derive(Copy, Clone, Debug, Eq, PartialEq, Structural)]
pub enum Error {
    Unauthorized,
    AlreadyInitialized,
    NotInitialized,
    LimitExceeded,
    InvalidSchedule,
}

/// Maximum distinct paused functions stored per module.
///
/// `pause_function` rejects a new distinct function once this cap is reached
/// with [`Error::LimitExceeded`]. Re-pausing an already-paused function is a
/// no-op and does not consume an additional slot. `unpause_function` frees a
/// slot for reuse.
pub const MAX_PAUSED_FUNCTIONS: u32 = 10;

/// Pause state of one module.
pub struct ModuleState {
    pub module_id: String,
    pub paused: bool,
    pub paused_functions: Vec<String>,
}

/// Abstract state of the killswitch. The two per-module maps are total: a
/// module that was never touched is not paused and has no paused function.
pub struct KillswitchView {
    pub admin: Option<Address>,
    pub global_paused: bool,
    pub module_paused: Map<Seq<char>, bool>,
    pub paused_functions: Map<Seq<char>, Seq<Seq<char>>>,
    pub unpause_schedule: Option<u64>,
}

/// The contract state.
pub struct EmergencyKillswitch {
    admin: Option<Address>,
    global_paused: bool,
    modules: Vec<ModuleState>,
    unpause_schedule: Option<u64>,
}

/// Function names of a module, as text.
pub open spec fn names(v: Seq<String>) -> Seq<Seq<char>> {
    v.map_values(|s: String| s@)
}

/// Whether entry `i` is the one for module `m`.
pub open spec fn is_module_at(mods: Seq<ModuleState>, i: int, m: Seq<char>) -> bool {
    0 <= i < mods.len() && mods[i].module_id@ == m
}

/// Pause flag of module `m` (false when it has no entry).
pub open spec fn module_flag(mods: Seq<ModuleState>, m: Seq<char>) -> bool {
    if exists|i: int| is_module_at(mods, i, m) {
        mods[choose|i: int| is_module_at(mods, i, m)].paused
    } else {
        false
    }
}

/// Paused functions of module `m` (empty when it has no entry).
pub open spec fn module_funcs(mods: Seq<ModuleState>, m: Seq<char>) -> Seq<Seq<char>> {
    if exists|i: int| is_module_at(mods, i, m) {
        names(mods[choose|i: int| is_module_at(mods, i, m)].paused_functions@)
    } else {
        Seq::empty()
    }
}

/// `l` without the first occurrence of `f` (unchanged when absent).
pub open spec fn remove_first(l: Seq<Seq<char>>, f: Seq<char>) -> Seq<Seq<char>>
    decreases l.len(),
{
    if l.len() == 0 {
        l
    } else if l[0] == f {
        l.drop_first()
    } else {
        seq![l[0]] + remove_first(l.drop_first(), f)
    }
}

proof fn lemma_remove_first_at(l: Seq<Seq<char>>, f: Seq<char>, i: int)
    requires
        0 <= i < l.len(),
        l[i] == f,
        forall|j: int| 0 <= j < i ==> l[j] != f,
    ensures
        remove_first(l, f) == l.remove(i),
    decreases i,
{
    if i == 0 {
        assert(l.drop_first() =~= l.remove(0));
    } else {
        lemma_remove_first_at(l.drop_first(), f, i - 1);
        assert(seq![l[0]] + l.drop_first().remove(i - 1) =~= l.remove(i));
    }
}

proof fn lemma_remove_first_absent(l: Seq<Seq<char>>, f: Seq<char>)
    requires
        !l.contains(f),
    ensures
        remove_first(l, f) == l,
    decreases l.len(),
{
    if l.len() > 0 {
        assert(!l.drop_first().contains(f)) by {
            if l.drop_first().contains(f) {
                let j = choose|j: int| 0 <= j < l.drop_first().len() && l.drop_first()[j] == f;
                assert(l[j + 1] == f);
            }
        }
        assert(l[0] != f) by {
            if l[0] == f {
                assert(l.contains(f));
            }
        }
        lemma_remove_first_absent(l.drop_first(), f);
        assert(seq![l[0]] + l.drop_first() =~= l);
    }
}

/// Spec of the operations. Each returns the next state and the answer; a
/// refused operation leaves the state as it was.
pub open spec fn initialize_spec(s: KillswitchView, admin: Address) -> (KillswitchView, Result<(), Error>) {
    if s.admin is Some {
        (s, Err(Error::AlreadyInitialized))
    } else {
        (KillswitchView { admin: Some(admin), ..s }, Ok(()))
    }
}

pub open spec fn transfer_admin_spec(s: KillswitchView, new_admin: Address) -> (KillswitchView, Result<(), Error>) {
    if s.admin is None {
        (s, Err(Error::NotInitialized))
    } else {
        (KillswitchView { admin: Some(new_admin), ..s }, Ok(()))
    }
}

pub open spec fn pause_spec(s: KillswitchView) -> (KillswitchView, Result<(), Error>) {
    if s.admin is None {
        (s, Err(Error::NotInitialized))
    } else {
        (KillswitchView { global_paused: true, unpause_schedule: None, ..s }, Ok(()))
    }
}

pub open spec fn unpause_spec(s: KillswitchView, now: u64) -> (KillswitchView, Result<(), Error>) {
    if s.admin is None {
        (s, Err(Error::NotInitialized))
    } else {
        match s.unpause_schedule {
            None => (s, Err(Error::InvalidSchedule)),
            Some(t) => if now < t {
                (s, Err(Error::Unauthorized))
            } else {
                (KillswitchView { global_paused: false, unpause_schedule: None, ..s }, Ok(()))
            },
        }
    }
}

pub open spec fn schedule_unpause_spec(s: KillswitchView, time: u64, now: u64) -> (KillswitchView, Result<
    (),
    Error,
>) {
    if s.admin is None {
        (s, Err(Error::NotInitialized))
    } else if time < now {
        (s, Err(Error::InvalidSchedule))
    } else {
        (KillswitchView { unpause_schedule: Some(time), ..s }, Ok(()))
    }
}

pub open spec fn pause_function_spec(s: KillswitchView, m: Seq<char>, f: Seq<char>) -> (KillswitchView, Result<
    (),
    Error,
>) {
    let l = s.paused_functions[m];
    if s.admin is None {
        (s, Err(Error::NotInitialized))
    } else if l.contains(f) {
        (s, Ok(()))
    } else if l.len() >= MAX_PAUSED_FUNCTIONS {
        (s, Err(Error::LimitExceeded))
    } else {
        (KillswitchView { paused_functions: s.paused_functions.insert(m, l.push(f)), ..s }, Ok(()))
    }
}

pub open spec fn unpause_function_spec(s: KillswitchView, m: Seq<char>, f: Seq<char>) -> (KillswitchView, Result<
    (),
    Error,
>) {
    if s.admin is None {
        (s, Err(Error::NotInitialized))
    } else {
        (
            KillswitchView {
                paused_functions: s.paused_functions.insert(m, remove_first(s.paused_functions[m], f)),
                ..s
            },
            Ok(()),
        )
    }
}

pub open spec fn set_module_spec(s: KillswitchView, m: Seq<char>, paused: bool) -> (KillswitchView, Result<
    (),
    Error,
>) {
    if s.admin is None {
        (s, Err(Error::NotInitialized))
    } else {
        (KillswitchView { module_paused: s.module_paused.insert(m, paused), ..s }, Ok(()))
    }
}

/// A function counts as paused under a global pause, a pause of its module,
/// or its own pause flag.
pub open spec fn function_paused_spec(s: KillswitchView, m: Seq<char>, f: Seq<char>) -> bool {
    s.global_paused || s.module_paused[m] || s.paused_functions[m].contains(f)
}

/// The state invariant: module entries are unique, and each module holds at
/// most `MAX_PAUSED_FUNCTIONS` distinct paused functions.
pub open spec fn modules_ok(mods: Seq<ModuleState>) -> bool {
    &&& forall|i: int, j: int|
        0 <= i < j < mods.len() ==> (#[trigger] mods[i]).module_id@ != (#[trigger] mods[j]).module_id@
    &&& forall|i: int|
        0 <= i < mods.len() ==> (#[trigger] mods[i]).paused_functions@.len()
            <= MAX_PAUSED_FUNCTIONS && names(mods[i].paused_functions@).no_duplicates()
}

/// Invariant of an abstract state: at most `MAX_PAUSED_FUNCTIONS` distinct
/// paused functions per module.
pub open spec fn view_ok(s: KillswitchView) -> bool {
    forall|m: Seq<char>|
        (#[trigger] s.paused_functions[m]).len() <= MAX_PAUSED_FUNCTIONS
            && s.paused_functions[m].no_duplicates()
}

proof fn lemma_lookup(mods: Seq<ModuleState>, i: int)
    requires
        modules_ok(mods),
        0 <= i < mods.len(),
    ensures
        module_flag(mods, mods[i].module_id@) == mods[i].paused,
        module_funcs(mods, mods[i].module_id@) == names(mods[i].paused_functions@),
{
    let m = mods[i].module_id@;
    assert(is_module_at(mods, i, m));
    let j = choose|j: int| is_module_at(mods, j, m);
    if j != i {
        if j < i {
            assert(mods[j].module_id@ != mods[i].module_id@);
        } else {
            assert(mods[i].module_id@ != mods[j].module_id@);
        }
    }
}

impl View for EmergencyKillswitch {
    type V = KillswitchView;

    closed spec fn view(&self) -> KillswitchView {
        KillswitchView {
            admin: self.admin,
            global_paused: self.global_paused,
            module_paused: Map::new(|m: Seq<char>| true, |m: Seq<char>| module_flag(self.modules@, m)),
            paused_functions: Map::new(|m: Seq<char>| true, |m: Seq<char>| module_funcs(self.modules@, m)),
            unpause_schedule: self.unpause_schedule,
        }
    }
}

impl EmergencyKillswitch {
    /// Well-formedness of the state.
    pub closed spec fn wf(&self) -> bool {
        modules_ok(self.modules@)
    }

    /// The state invariant holds of the abstract state of a well-formed killswitch.
    pub proof fn lemma_view_ok(&self)
        requires
            self.wf(),
        ensures
            view_ok(self@),
    {
        assert forall|m: Seq<char>|
            (#[trigger] self@.paused_functions[m]).len() <= MAX_PAUSED_FUNCTIONS
                && self@.paused_functions[m].no_duplicates() by {
            if exists|i: int| is_module_at(self.modules@, i, m) {
                let i = choose|i: int| is_module_at(self.modules@, i, m);
                lemma_lookup(self.modules@, i);
            }
        }
    }

    /// A killswitch that was not initialized: no admin, nothing paused.
    pub fn new() -> (k: Self)
        ensures
            k.wf(),
            k@.admin is None,
            !k@.global_paused,
            k@.unpause_schedule is None,
            forall|m: Seq<char>| !(#[trigger] k@.module_paused[m]),
            forall|m: Seq<char>| (#[trigger] k@.paused_functions[m]) == Seq::<Seq<char>>::empty(),
    {
        EmergencyKillswitch {
            admin: None,
            global_paused: false,
            modules: Vec::new(),
            unpause_schedule: None,
        }
    }

    /// The admin whose authorization every mutating operation needs.
    pub fn admin(&self) -> (a: Option<Address>)
        ensures
            a == self@.admin,
    {
        self.admin
    }

    pub fn initialize(&mut self, admin: Address) -> (r: Result<(), Error>)
        requires
            old(self).wf(),
        ensures
            final(self).wf(),
            (final(self)@, r) == initialize_spec(old(self)@, admin),
    {
        if self.admin.is_some() {
            return Err(Error::AlreadyInitialized);
        }
        self.admin = Some(admin);
        Ok(())
    }

    pub fn transfer_admin(&mut self, new_admin: Address) -> (r: Result<(), Error>)
        requires
            old(self).wf(),
        ensures
            final(self).wf(),
            (final(self)@, r) == transfer_admin_spec(old(self)@, new_admin),
    {
        if self.admin.is_none() {
            return Err(Error::NotInitialized);
        }
        self.admin = Some(new_admin);
        Ok(())
    }

    /// Pauses the contract globally. A new pause cancels any pending schedule.
    pub fn pause(&mut self) -> (r: Result<(), Error>)
        requires
            old(self).wf(),
        ensures
            final(self).wf(),
            (final(self)@, r) == pause_spec(old(self)@),
    {
        if self.admin.is_none() {
            return Err(Error::NotInitialized);
        }
        self.global_paused = true;
        self.unpause_schedule = None;
        Ok(())
    }

    /// Lifts the global pause; it cannot take effect before the scheduled time.
    pub fn unpause(&mut self, now: u64) -> (r: Result<(), Error>)
        requires
            old(self).wf(),
        ensures
            final(self).wf(),
            (final(self)@, r) == unpause_spec(old(self)@, now),
    {
        if self.admin.is_none() {
            return Err(Error::NotInitialized);
        }
        let schedule = match self.unpause_schedule {
            None => {
                return Err(Error::InvalidSchedule);
            },
            Some(t) => t,
        };
        if now < schedule {
            return Err(Error::Unauthorized);
        }
        self.global_paused = false;
        self.unpause_schedule = None;
        Ok(())
    }

    /// Records a future unpause time; past-dated schedules are rejected.
    pub fn schedule_unpause(&mut self, time: u64, now: u64) -> (r: Result<(), Error>)
        requires
            old(self).wf(),
        ensures
            final(self).wf(),
            (final(self)@, r) == schedule_unpause_spec(old(self)@, time, now),
    {
        if self.admin.is_none() {
            return Err(Error::NotInitialized);
        }
        if time < now {
            return Err(Error::InvalidSchedule);
        }
        self.unpause_schedule = Some(time);
        Ok(())
    }

    pub fn is_paused(&self) -> (b: bool)
        ensures
            b == self@.global_paused,
    {
        self.global_paused
    }

    /// The index of module `m`'s entry, if it has one.
    fn find_module(&self, m: &str) -> (r: Option<usize>)
        requires
            self.wf(),
        ensures
            match r {
                Some(i) => is_module_at(self.modules@, i as int, m@),
                None => !exists|i: int| is_module_at(self.modules@, i, m@),
            },
    {
        let ms = String::from_str(m);
        let n = self.modules.len();
        for i in 0..n
            invariant
                n == self.modules@.len(),
                ms@ == m@,
                forall|j: int| 0 <= j < i ==> self.modules@[j].module_id@ != m@,
        {
            if self.modules[i].module_id == ms {
                return Some(i);
            }
        }
        None
    }

    /// Replaces entry `i` by `e` (module id unchanged), or appends `e` when
    /// `i` is `None` (its module had no entry).
    fn put_module(&mut self, i: Option<usize>, e: ModuleState)
        requires
            old(self).wf(),
            e.paused_functions@.len() <= MAX_PAUSED_FUNCTIONS,
            names(e.paused_functions@).no_duplicates(),
            match i {
                Some(i) => is_module_at(old(self).modules@, i as int, e.module_id@),
                None => !exists|j: int| is_module_at(old(self).modules@, j, e.module_id@),
            },
        ensures
            final(self).wf(),
            final(self).admin == old(self).admin,
            final(self).global_paused == old(self).global_paused,
            final(self).unpause_schedule == old(self).unpause_schedule,
            forall|m: Seq<char>|
                m != e.module_id@ ==> module_flag(final(self).modules@, m) == module_flag(
                    old(self).modules@,
                    m,
                ) && module_funcs(final(self).modules@, m) == module_funcs(old(self).modules@, m),
            module_flag(final(self).modules@, e.module_id@) == e.paused,
            module_funcs(final(self).modules@, e.module_id@) == names(e.paused_functions@),
    {
        let ghost before = self.modules@;
        let ghost em = e.module_id@;
        match i {
            Some(i) => {
                self.modules.set(i, e);
            },
            None => {
                self.modules.push(e);
            },
        }
        proof {
            let after = self.modules@;
            assert forall|k: int| 0 <= k < before.len() implies (#[trigger] after[k]).module_id@
                == before[k].module_id@ by {}
            assert forall|a: int, b: int| 0 <= a < b < after.len() implies (#[trigger] after[a]).module_id@
                != (#[trigger] after[b]).module_id@ by {
                if b < before.len() {
                    assert(before[a].module_id@ != before[b].module_id@);
                } else {
                    assert(after[b].module_id@ == em);
                    assert(!is_module_at(before, a, em));
                }
            }
            assert(modules_ok(after));
            let pos: int = match i {
                Some(i) => i as int,
                None => before.len() as int,
            };
            assert(after[pos].module_id@ == em);
            lemma_lookup(after, pos);
            assert forall|m: Seq<char>| m != em implies module_flag(after, m) == module_flag(before, m)
                && module_funcs(after, m) == module_funcs(before, m) by {
                if exists|k: int| is_module_at(before, k, m) {
                    let k = choose|k: int| is_module_at(before, k, m);
                    assert(k != pos);
                    assert(after[k] == before[k]);
                    lemma_lookup(before, k);
                    lemma_lookup(after, k);
                } else {
                    if exists|k: int| is_module_at(after, k, m) {
                        let k = choose|k: int| is_module_at(after, k, m);
                        assert(k != pos);
                        assert(after[k] == before[k]);
                        assert(is_module_at(before, k, m));
                    }
                }
            }
        }
    }

    /// Pauses a single function within a module. Each module keeps at most
    /// `MAX_PAUSED_FUNCTIONS` distinct paused functions; pausing one that is
    /// already paused is a no-op.
    pub fn pause_function(&mut self, module_id: &str, func: &str) -> (r: Result<(), Error>)
        requires
            old(self).wf(),
        ensures
            final(self).wf(),
            (final(self)@, r) == pause_function_spec(old(self)@, module_id@, func@),
    {
        if self.admin.is_none() {
            return Err(Error::NotInitialized);
        }
        let idx = self.find_module(module_id);
        let ghost old_list = self@.paused_functions[module_id@];
        proof {
            match idx {
                Some(i) => lemma_lookup(self.modules@, i as int),
                None => {},
            }
        }
        let mut e = match idx {
            Some(i) => {
                let old_e = &self.modules[i];
                ModuleState {
                    module_id: String::from_str(module_id),
                    paused: old_e.paused,
                    paused_functions: copy_names(&old_e.paused_functions),
                }
            },
            None => ModuleState {
                module_id: String::from_str(module_id),
                paused: false,
                paused_functions: Vec::new(),
            },
        };
        proof {
            assert(names(e.paused_functions@) =~= old_list);
        }
        if contains_name(&e.paused_functions, func) {
            proof {
                assert(self@ == pause_function_spec(old(self)@, module_id@, func@).0);
            }
            return Ok(());
        }
        if e.paused_functions.len() >= 10 {
            return Err(Error::LimitExceeded);
        }
        e.paused_functions.push(String::from_str(func));
        proof {
            assert(names(e.paused_functions@) =~= old_list.push(func@));
            assert(old_list.push(func@).no_duplicates());
        }
        self.put_module(idx, e);
        proof {
            assert(self@.module_paused =~= old(self)@.module_paused);
            assert(self@.paused_functions =~= old(self)@.paused_functions.insert(
                module_id@,
                old_list.push(func@),
            ));
        }
        Ok(())
    }

    /// Unpauses a single function within a module, freeing its slot.
    pub fn unpause_function(&mut self, module_id: &str, func: &str) -> (r: Result<(), Error>)
        requires
            old(self).wf(),
        ensures
            final(self).wf(),
            (final(self)@, r) == unpause_function_spec(old(self)@, module_id@, func@),
    {
        if self.admin.is_none() {
            return Err(Error::NotInitialized);
        }
        let idx = self.find_module(module_id);
        match idx {
            None => {
                proof {
                    let l = old(self)@.paused_functions[module_id@];
                    assert(l =~= Seq::<Seq<char>>::empty());
                    lemma_remove_first_absent(l, func@);
                    assert(old(self)@.paused_functions =~= old(self)@.paused_functions.insert(
                        module_id@,
                        remove_first(l, func@),
                    ));
                }
                Ok(())
            },
            Some(i) => {
                proof {
                    lemma_lookup(self.modules@, i as int);
                }
                let ghost old_list = self@.paused_functions[module_id@];
                let old_e = &self.modules[i];
                let mut funcs = copy_names(&old_e.paused_functions);
                let paused = old_e.paused;
                let pos = position_of(&funcs, func);
                match pos {
                    None => {
                        proof {
                            lemma_remove_first_absent(old_list, func@);
                            assert(old(self)@.paused_functions =~= old(self)@.paused_functions.insert(
                                module_id@,
                                remove_first(old_list, func@),
                            ));
                        }
                        Ok(())
                    },
                    Some(p) => {
                        proof {
                            lemma_remove_first_at(old_list, func@, p as int);
                        }
                        funcs.remove(p);
                        proof {
                            assert(names(funcs@) =~= old_list.remove(p as int));
                            assert forall|a: int, b: int|
                                0 <= a < names(funcs@).len() && 0 <= b < names(funcs@).len() && a
                                    != b implies names(funcs@)[a] != names(funcs@)[b] by {
                                let a2 = if a < p { a } else { a + 1 };
                                let b2 = if b < p { b } else { b + 1 };
                                assert(names(funcs@)[a] == old_list[a2]);
                                assert(names(funcs@)[b] == old_list[b2]);
                            }
                        }
                        let e = ModuleState {
                            module_id: String::from_str(module_id),
                            paused,
                            paused_functions: funcs,
                        };
                        self.put_module(Some(i), e);
                        proof {
                            assert(self@.module_paused =~= old(self)@.module_paused);
                            assert(self@.paused_functions =~= old(self)@.paused_functions.insert(
                                module_id@,
                                remove_first(old_list, func@),
                            ));
                        }
                        Ok(())
                    },
                }
            },
        }
    }

    /// Whether a function is paused: globally, through its module, or itself.
    pub fn is_function_paused(&self, module_id: &str, func: &str) -> (b: bool)
        requires
            self.wf(),
        ensures
            b == function_paused_spec(self@, module_id@, func@),
    {
        if self.global_paused {
            return true;
        }
        match self.find_module(module_id) {
            None => false,
            Some(i) => {
                proof {
                    lemma_lookup(self.modules@, i as int);
                }
                self.modules[i].paused || contains_name(&self.modules[i].paused_functions, func)
            },
        }
    }

    fn set_module(&mut self, module_id: &str, paused: bool) -> (r: Result<(), Error>)
        requires
            old(self).wf(),
        ensures
            final(self).wf(),
            (final(self)@, r) == set_module_spec(old(self)@, module_id@, paused),
    {
        if self.admin.is_none() {
            return Err(Error::NotInitialized);
        }
        let idx = self.find_module(module_id);
        proof {
            match idx {
                Some(i) => lemma_lookup(self.modules@, i as int),
                None => {},
            }
        }
        let funcs = match idx {
            Some(i) => copy_names(&self.modules[i].paused_functions),
            None => Vec::new(),
        };
        let ghost old_list = self@.paused_functions[module_id@];
        proof {
            assert(names(funcs@) =~= old_list);
            self.lemma_view_ok();
        }
        let e = ModuleState { module_id: String::from_str(module_id), paused, paused_functions: funcs };
        self.put_module(idx, e);
        proof {
            assert(self@.module_paused =~= old(self)@.module_paused.insert(module_id@, paused));
            assert(self@.paused_functions =~= old(self)@.paused_functions);
        }
        Ok(())
    }

    pub fn pause_module(&mut self, module_id: &str) -> (r: Result<(), Error>)
        requires
            old(self).wf(),
        ensures
            final(self).wf(),
            (final(self)@, r) == set_module_spec(old(self)@, module_id@, true),
    {
        self.set_module(module_id, true)
    }

    pub fn unpause_module(&mut self, module_id: &str) -> (r: Result<(), Error>)
        requires
            old(self).wf(),
        ensures
            final(self).wf(),
            (final(self)@, r) == set_module_spec(old(self)@, module_id@, false),
    {
        self.set_module(module_id, false)
    }
}

fn copy_names(v: &Vec<String>) -> (r: Vec<String>)
    ensures
        names(r@) == names(v@),
{
    let mut r: Vec<String> = Vec::new();
    let n = v.len();
    for i in 0..n
        invariant
            n == v@.len(),
            names(r@) == names(v@.take(i as int)),
    {
        let ghost r0 = r@;
        let x = String::from_str(v[i].as_str());
        let ghost xv = x@;
        r.push(x);
        proof {
            assert(names(r0).len() == i);
            assert(r0.len() == i);
            assert(v@.take(i + 1) =~= v@.take(i as int).push(v@[i as int]));
            assert(names(r@) =~= names(r0).push(xv));
            assert(names(v@.take(i + 1)) =~= names(v@.take(i as int)).push(v@[i as int]@));
        }
    }
    proof {
        assert(v@.take(n as int) =~= v@);
    }
    r
}

fn contains_name(v: &Vec<String>, f: &str) -> (b: bool)
    ensures
        b == names(v@).contains(f@),
{
    match position_of(v, f) {
        Some(p) => {
            proof {
                assert(names(v@)[p as int] == f@);
            }
            true
        },
        None => false,
    }
}

fn position_of(v: &Vec<String>, f: &str) -> (r: Option<usize>)
    ensures
        match r {
            Some(p) => p < v@.len() && names(v@)[p as int] == f@ && forall|j: int|
                0 <= j < p ==> names(v@)[j] != f@,
            None => !names(v@).contains(f@),
        },
{
    let fs = String::from_str(f);
    let n = v.len();
    for i in 0..n
        invariant
            n == v@.len(),
            fs@ == f@,
            forall|j: int| 0 <= j < i ==> names(v@)[j] != f@,
    {
        if v[i] == fs {
            return Some(i);
        }
    }
    None
}

/// A new pause always cancels a pending unpause schedule.
pub proof fn lemma_pause_cancels_schedule(s: KillswitchView)
    requires
        s.admin is Some,
    ensures
        pause_spec(s).0.global_paused,
        pause_spec(s).0.unpause_schedule is None,
{
}

/// The unpause timelock: an unpause succeeds only at or after a scheduled
/// time, and a schedule can only be set at or after the current time.
pub proof fn lemma_unpause_timelock(s: KillswitchView, now: u64)
    ensures
        unpause_spec(s, now).1 is Ok ==> s.unpause_schedule is Some && now
            >= s.unpause_schedule->0,
        forall|t: u64| t < now ==> schedule_unpause_spec(s, t, now).1 is Err,
{
}

/// A global pause pauses every function of every module.
pub proof fn lemma_global_pause_covers_all(s: KillswitchView, m: Seq<char>, f: Seq<char>)
    requires
        s.global_paused,
    ensures
        function_paused_spec(s, m, f),
{
}

/// Re-pausing a paused function changes nothing.
pub proof fn lemma_repause_is_noop(s: KillswitchView, m: Seq<char>, f: Seq<char>)
    requires
        s.admin is Some,
        s.paused_functions[m].contains(f),
    ensures
        pause_function_spec(s, m, f) == (s, Ok::<(), Error>(())),
{
}

} // verus!
