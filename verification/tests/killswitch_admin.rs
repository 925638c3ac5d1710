use remitwise::killswitch::{EmergencyKillswitch, Error, MAX_PAUSED_FUNCTIONS};

const ADMIN: u64 = 1;
const NEW_ADMIN: u64 = 2;

const DISTINCT_FUNCS: &[&str] = &["fn0", "fn1", "fn2", "fn3", "fn4", "fn5", "fn6", "fn7", "fn8", "fn9"];

fn initialized() -> EmergencyKillswitch {
    let mut k = EmergencyKillswitch::new();
    assert_eq!(k.initialize(ADMIN), Ok(()));
    k
}

fn paused_count_for(k: &EmergencyKillswitch, module: &str, names: &[&str]) -> u32 {
    names.iter().filter(|f| k.is_function_paused(module, f)).count() as u32
}

fn count_paused(k: &EmergencyKillswitch, module: &str) -> u32 {
    paused_count_for(k, module, DISTINCT_FUNCS)
}

#[test]
fn transfer_admin_before_initialize_returns_not_initialized() {
    let mut k = EmergencyKillswitch::new();
    assert_eq!(k.transfer_admin(NEW_ADMIN), Err(Error::NotInitialized));
    assert_eq!(k.admin(), None);
}

#[test]
fn transfer_admin_grants_new_admin_pause_powers_and_updates_storage() {
    let mut k = initialized();
    assert_eq!(k.transfer_admin(NEW_ADMIN), Ok(()));
    assert_eq!(k.admin(), Some(NEW_ADMIN));
    assert_eq!(k.pause(), Ok(()));
    assert!(k.is_paused());
    let now = 0;
    let unpause_at = now + 10;
    assert_eq!(k.schedule_unpause(unpause_at, now), Ok(()));
    assert_eq!(k.unpause(unpause_at), Ok(()));
    assert!(!k.is_paused());
    assert_eq!(k.pause_module("bill"), Ok(()));
    assert!(k.is_function_paused("bill", "pay"));
}

#[test]
fn transfer_admin_to_self_is_deterministic() {
    let mut k = initialized();
    assert_eq!(k.transfer_admin(ADMIN), Ok(()));
    assert_eq!(k.admin(), Some(ADMIN));
    assert_eq!(k.pause(), Ok(()));
    assert!(k.is_paused());
}

#[test]
fn transfer_admin_double_transfer_revokes_intermediate_admin() {
    let mut k = initialized();
    k.transfer_admin(NEW_ADMIN).unwrap();
    k.transfer_admin(3).unwrap();
    assert_eq!(k.admin(), Some(3));
}

#[test]
fn pause_function_exact_cap_succeeds() {
    let mut k = initialized();
    for index in 0..MAX_PAUSED_FUNCTIONS as usize {
        let func = DISTINCT_FUNCS[index];
        assert_eq!(k.pause_function("bill", func), Ok(()));
        assert!(k.is_function_paused("bill", func));
        assert_eq!(count_paused(&k, "bill"), (index as u32) + 1);
    }
    assert_eq!(count_paused(&k, "bill"), MAX_PAUSED_FUNCTIONS);
}

#[test]
fn pause_function_over_cap_returns_limit_exceeded() {
    let mut k = initialized();
    for f in DISTINCT_FUNCS {
        k.pause_function("bill", f).unwrap();
    }
    assert_eq!(count_paused(&k, "bill"), MAX_PAUSED_FUNCTIONS);
    assert_eq!(k.pause_function("bill", "fn10"), Err(Error::LimitExceeded));
    assert_eq!(count_paused(&k, "bill"), MAX_PAUSED_FUNCTIONS);
    assert!(!k.is_function_paused("bill", "fn10"));
}

#[test]
fn pause_function_dedup_is_noop() {
    let mut k = initialized();
    for f in DISTINCT_FUNCS {
        k.pause_function("bill", f).unwrap();
    }
    assert_eq!(k.pause_function("bill", "fn0"), Ok(()));
    assert_eq!(count_paused(&k, "bill"), MAX_PAUSED_FUNCTIONS);
    assert_eq!(k.pause_function("bill", "fn10"), Err(Error::LimitExceeded));
}

#[test]
fn unpause_function_frees_slot_for_new_pause() {
    let mut k = initialized();
    for f in DISTINCT_FUNCS {
        k.pause_function("bill", f).unwrap();
    }
    k.unpause_function("bill", "fn0").unwrap();
    assert!(!k.is_function_paused("bill", "fn0"));
    assert_eq!(count_paused(&k, "bill"), MAX_PAUSED_FUNCTIONS - 1);
    assert_eq!(k.pause_function("bill", "fn10"), Ok(()));
    assert!(k.is_function_paused("bill", "fn10"));
    let final_names = ["fn1", "fn2", "fn3", "fn4", "fn5", "fn6", "fn7", "fn8", "fn9", "fn10"];
    assert_eq!(paused_count_for(&k, "bill", &final_names), MAX_PAUSED_FUNCTIONS);
}

#[test]
fn pause_function_cap_is_per_module() {
    let mut k = initialized();
    for f in DISTINCT_FUNCS {
        k.pause_function("bill", f).unwrap();
    }
    assert_eq!(count_paused(&k, "bill"), MAX_PAUSED_FUNCTIONS);
    assert_eq!(k.pause_function("bill", "fn10"), Err(Error::LimitExceeded));
    assert_eq!(k.pause_function("save", "fn0"), Ok(()));
    assert!(k.is_function_paused("save", "fn0"));
    assert!(!k.is_function_paused("bill", "fn10"));
}

#[test]
fn unpause_before_schedule_is_refused() {
    let mut k = initialized();
    k.pause().unwrap();
    assert_eq!(k.unpause(5), Err(Error::InvalidSchedule));
    assert_eq!(k.schedule_unpause(100, 50), Ok(()));
    assert_eq!(k.unpause(99), Err(Error::Unauthorized));
    assert!(k.is_paused());
    assert_eq!(k.schedule_unpause(10, 50), Err(Error::InvalidSchedule));
    assert_eq!(k.unpause(100), Ok(()));
    assert!(!k.is_paused());
}

#[test]
fn initialize_twice_is_refused() {
    let mut k = initialized();
    assert_eq!(k.initialize(NEW_ADMIN), Err(Error::AlreadyInitialized));
    assert_eq!(k.admin(), Some(ADMIN));
}

#[test]
fn module_pause_covers_every_function_until_lifted() {
    let mut k = initialized();
    assert!(!k.is_function_paused("bill", "pay"));
    k.pause_module("bill").unwrap();
    assert!(k.is_function_paused("bill", "anything"));
    assert!(!k.is_function_paused("save", "anything"));
    k.unpause_module("bill").unwrap();
    assert!(!k.is_function_paused("bill", "pay"));
}
