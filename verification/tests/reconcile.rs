use dcron::config::Config;
use dcron::db::{DBError, DB};
use dcron::election::{
    heartbeat, most_recent_heartbeat, role_should_assume, run_health_checks, Role,
    STALENESS_WINDOW,
};
use dcron::heartbeat::Heartbeat;
use dcron::job::Job;
use dcron::reconcile::{
    advance, apply_load, apply_poll, fetch_job_updates, leader_step, load_jobs, pause_before,
    run_leader_scheduler, update_scheduler, LoopState, TICK_INTERVAL_MS, WAIT_INTERVAL_MS,
};
use dcron::scheduler::{ScheduleError, Scheduler, POLL_INTERVAL_SECS};
use std::cell::{Cell, RefCell};

struct MemoryStore {
    rows: RefCell<Vec<Job>>,
    heartbeats: RefCell<Vec<Heartbeat>>,
    clock: Cell<i64>,
    down: Cell<bool>,
    fail_inactive_queries: Cell<bool>,
}

impl MemoryStore {
    fn holding(rows: Vec<Job>) -> MemoryStore {
        MemoryStore {
            rows: RefCell::new(rows),
            heartbeats: RefCell::new(Vec::new()),
            clock: Cell::new(0),
            down: Cell::new(false),
            fail_inactive_queries: Cell::new(false),
        }
    }

    fn check(&self) -> Result<(), DBError> {
        if self.down.get() {
            Err(DBError { message: "store unreachable".to_string() })
        } else {
            Ok(())
        }
    }
}

impl DB for MemoryStore {
    fn send_heartbeat(&self, server_name: &str) -> Result<(), DBError> {
        self.check()?;
        self.heartbeats
            .borrow_mut()
            .push(Heartbeat { server: server_name.to_string(), timestamp: self.clock.get() });
        Ok(())
    }

    fn most_recent_heartbeat(&self) -> Result<Option<Heartbeat>, DBError> {
        self.check()?;
        Ok(most_recent_heartbeat(&self.heartbeats.borrow(), self.clock.get(), STALENESS_WINDOW))
    }

    fn find_job(&self, name: &str, active: bool) -> Option<Job> {
        self.rows.borrow().iter().find(|job| job.name == name && job.active == active).cloned()
    }

    fn find_all_active(&self) -> Result<Vec<Job>, DBError> {
        self.check()?;
        Ok(self.rows.borrow().iter().filter(|job| job.active).cloned().collect())
    }

    fn find_all_since(&self, active: bool, since: i64) -> Result<Vec<Job>, DBError> {
        self.check()?;
        if !active && self.fail_inactive_queries.get() {
            return Err(DBError { message: "query failed".to_string() });
        }
        Ok(self
            .rows
            .borrow()
            .iter()
            .filter(|job| job.active == active && job.updated_at > since)
            .cloned()
            .collect())
    }

    fn disable_if_exist(&self, name: &str) -> Result<(), DBError> {
        self.check()?;
        for job in self.rows.borrow_mut().iter_mut() {
            if job.name == name && job.active {
                job.active = false;
                job.updated_at = self.clock.get();
            }
        }
        Ok(())
    }

    fn insert_if_not_exist(&self, job: &Job) -> Result<(), DBError> {
        self.check()?;
        if self.find_job(&job.name, true).is_some() {
            return Err(DBError { message: "Job already in database".to_string() });
        }
        self.rows.borrow_mut().push(job.clone());
        Ok(())
    }
}

fn cycle_job(name: &str, time: &str, active: bool, updated_at: i64) -> Job {
    Job {
        name: name.to_string(),
        time: time.to_string(),
        job_type: 0,
        script: format!("{}.py", name),
        timeout: 0,
        active,
        updated_at,
    }
}

fn cycle_scheduler(now: i64) -> Scheduler {
    Scheduler::starting_at(Config { database: None, minio: None, server_name: None }, now)
}

#[test]
fn transitions_of_the_loop() {
    for due in [false, true] {
        assert_eq!(advance(LoopState::WAITING, Role::FOLLOWER, true, due), LoopState::WAITING);
        assert_eq!(advance(LoopState::WAITING, Role::LEADER, true, due), LoopState::LOADING);
        assert_eq!(advance(LoopState::LOADING, Role::LEADER, true, due), LoopState::TICKING);
        assert_eq!(advance(LoopState::LOADING, Role::LEADER, false, due), LoopState::LOADING);
        assert_eq!(advance(LoopState::LOADING, Role::FOLLOWER, true, due), LoopState::TICKING);
        assert_eq!(advance(LoopState::POLLING, Role::LEADER, true, due), LoopState::TICKING);
        assert_eq!(
            advance(LoopState::POLLING, Role::FOLLOWER, true, due),
            LoopState::STEPPING_DOWN
        );
        assert_eq!(advance(LoopState::POLLING, Role::LEADER, false, due), LoopState::TICKING);
        assert_eq!(
            advance(LoopState::POLLING, Role::FOLLOWER, false, due),
            LoopState::STEPPING_DOWN
        );
        assert_eq!(advance(LoopState::STEPPING_DOWN, Role::LEADER, true, due), LoopState::WAITING);
        assert_eq!(
            advance(LoopState::STEPPING_DOWN, Role::FOLLOWER, true, due),
            LoopState::WAITING
        );
    }
    assert_eq!(advance(LoopState::TICKING, Role::LEADER, true, true), LoopState::POLLING);
    assert_eq!(advance(LoopState::TICKING, Role::FOLLOWER, true, true), LoopState::POLLING);
    assert_eq!(advance(LoopState::TICKING, Role::LEADER, true, false), LoopState::TICKING);
    assert_eq!(advance(LoopState::TICKING, Role::FOLLOWER, false, false), LoopState::TICKING);
}

#[test]
fn pauses_of_the_loop() {
    assert_eq!(POLL_INTERVAL_SECS, 4);
    assert_eq!(TICK_INTERVAL_MS, 500);
    assert_eq!(pause_before(LoopState::WAITING), WAIT_INTERVAL_MS);
    assert_eq!(pause_before(LoopState::LOADING), 0);
    assert_eq!(pause_before(LoopState::TICKING), TICK_INTERVAL_MS);
    assert_eq!(pause_before(LoopState::POLLING), 0);
    assert_eq!(pause_before(LoopState::STEPPING_DOWN), 0);
}

#[test]
fn end_to_end_load_then_disable() {
    let connection: Result<MemoryStore, DBError> =
        Ok(MemoryStore::holding(vec![cycle_job("backup", "0 0 * * *", true, 100)]));
    let store = connection.as_ref().unwrap();
    let mut scheduler = cycle_scheduler(50);
    let step = leader_step(LoopState::LOADING, &mut scheduler, &connection, Role::LEADER, 150);
    assert_eq!(step.next, LoopState::TICKING);
    assert!(step.failure.is_none());
    assert_eq!(step.skipped, Vec::<ScheduleError>::new());
    assert!(scheduler.is_scheduled("backup"));
    assert!(scheduler.handle_of("backup").is_some());
    assert_eq!(scheduler.scheduled_count(), 1);
    assert!(scheduler.last_updated_at() >= 100);

    store.clock.set(200);
    store.disable_if_exist("backup").unwrap();
    assert_eq!(store.find_job("backup", false), Some(cycle_job("backup", "0 0 * * *", false, 200)));

    let step = leader_step(LoopState::POLLING, &mut scheduler, &connection, Role::LEADER, 250);
    assert_eq!(step.next, LoopState::TICKING);
    assert!(step.failure.is_none());
    assert!(!scheduler.is_scheduled("backup"));
    assert_eq!(scheduler.handle_of("backup"), None);
    assert_eq!(scheduler.scheduled_count(), 0);
    assert_eq!(scheduler.last_updated_at(), 250);
}

#[test]
fn load_registers_exactly_the_active_names() {
    let store = MemoryStore::holding(vec![
        cycle_job("a", "0 0 * * *", true, 10),
        cycle_job("b", "0 0 0 * * *", true, 20),
        cycle_job("c", "@daily", false, 30),
        cycle_job("d", "0 0 12 * * Mon", true, 40),
    ]);
    let mut scheduler = cycle_scheduler(0);
    let loaded = load_jobs(&mut scheduler, &store, 100);
    assert_eq!(loaded, Ok(Vec::new()));
    assert!(scheduler.is_scheduled("a"));
    assert!(scheduler.is_scheduled("b"));
    assert!(!scheduler.is_scheduled("c"));
    assert!(scheduler.is_scheduled("d"));
    assert_eq!(scheduler.scheduled_count(), 3);
    assert_eq!(scheduler.job_count(), 3);
    assert_eq!(scheduler.last_updated_at(), 100);
}

#[test]
fn load_discards_what_was_scheduled_before() {
    let mut scheduler = cycle_scheduler(500);
    apply_load(&mut scheduler, vec![cycle_job("old", "0 0 * * *", true, 1)], 600);
    assert!(scheduler.is_scheduled("old"));
    let skipped = apply_load(
        &mut scheduler,
        vec![cycle_job("new", "0 0 * * *", true, 2), cycle_job("bad", "x", true, 3)],
        550,
    );
    assert_eq!(skipped, vec![ScheduleError { name: "bad".to_string(), expression: "x".to_string() }]);
    assert!(!scheduler.is_scheduled("old"));
    assert!(scheduler.is_scheduled("new"));
    assert!(!scheduler.is_scheduled("bad"));
    assert_eq!(scheduler.scheduled_count(), 1);
    assert_eq!(scheduler.last_updated_at(), 550);
}

#[test]
fn a_failed_load_is_tried_again() {
    let connection: Result<MemoryStore, DBError> =
        Ok(MemoryStore::holding(vec![cycle_job("a", "0 0 * * *", true, 10)]));
    let store = connection.as_ref().unwrap();
    store.down.set(true);
    let mut scheduler = cycle_scheduler(5);
    let step = leader_step(LoopState::LOADING, &mut scheduler, &connection, Role::LEADER, 100);
    assert_eq!(step.next, LoopState::LOADING);
    assert_eq!(step.failure, Some(DBError { message: "store unreachable".to_string() }));
    assert_eq!(scheduler.scheduled_count(), 0);
    assert_eq!(scheduler.last_updated_at(), 5);
    store.down.set(false);
    let step = leader_step(LoopState::LOADING, &mut scheduler, &connection, Role::LEADER, 101);
    assert_eq!(step.next, LoopState::TICKING);
    assert!(scheduler.is_scheduled("a"));
    assert_eq!(scheduler.last_updated_at(), 101);
}

#[test]
fn polling_twice_without_a_change_keeps_every_handle() {
    let store = MemoryStore::holding(vec![
        cycle_job("a", "0 0 * * *", true, 110),
        cycle_job("b", "0 0 * * *", true, 120),
        cycle_job("gone", "0 0 * * *", false, 130),
    ]);
    let mut scheduler = cycle_scheduler(100);
    assert_eq!(fetch_job_updates(&mut scheduler, &store, 200), Ok(Vec::new()));
    let a = scheduler.handle_of("a");
    let b = scheduler.handle_of("b");
    assert!(a.is_some() && b.is_some());
    assert_eq!(scheduler.scheduled_count(), 2);
    assert_eq!(scheduler.last_updated_at(), 200);
    assert_eq!(fetch_job_updates(&mut scheduler, &store, 204), Ok(Vec::new()));
    assert_eq!(scheduler.handle_of("a"), a);
    assert_eq!(scheduler.handle_of("b"), b);
    assert_eq!(scheduler.scheduled_count(), 2);
    assert_eq!(scheduler.job_count(), 0);
    assert_eq!(scheduler.last_updated_at(), 204);
}

#[test]
fn a_changed_schedule_leaves_one_handle() {
    let store = MemoryStore::holding(vec![
        cycle_job("a", "0 0 * * *", true, 10),
        cycle_job("b", "0 0 * * *", true, 10),
    ]);
    let mut scheduler = cycle_scheduler(0);
    load_jobs(&mut scheduler, &store, 50).unwrap();
    let a = scheduler.handle_of("a").unwrap();
    let b = scheduler.handle_of("b").unwrap();
    store.rows.borrow_mut()[0] = cycle_job("a", "0 30 6 * * *", true, 60);
    assert_eq!(fetch_job_updates(&mut scheduler, &store, 70), Ok(Vec::new()));
    assert_eq!(scheduler.scheduled_count(), 2);
    assert_ne!(scheduler.handle_of("a"), Some(a));
    assert_eq!(scheduler.handle_of("b"), Some(b));
    assert_eq!(scheduler.scheduled_job("a"), Some(cycle_job("a", "0 30 6 * * *", true, 60)));
    assert_eq!(scheduler.job("a"), Some(cycle_job("a", "0 30 6 * * *", true, 60)));
    assert_eq!(scheduler.job("b"), None);
}

#[test]
fn a_job_disabled_and_created_anew_stays_scheduled() {
    let mut scheduler = cycle_scheduler(100);
    apply_load(&mut scheduler, vec![cycle_job("a", "0 0 * * *", true, 90)], 100);
    let before = scheduler.handle_of("a");
    let skipped = apply_poll(
        &mut scheduler,
        vec![cycle_job("a", "0 5 * * *", true, 150)],
        vec![cycle_job("a", "0 0 * * *", false, 150)],
        160,
    );
    assert_eq!(skipped, Vec::<ScheduleError>::new());
    assert!(scheduler.is_scheduled("a"));
    assert_ne!(scheduler.handle_of("a"), before);
    assert_eq!(scheduler.scheduled_job("a"), Some(cycle_job("a", "0 5 * * *", true, 150)));
    assert_eq!(scheduler.scheduled_count(), 1);
}

#[test]
fn a_poll_schedules_a_job_written_exactly_at_the_watermark() {
    let mut scheduler = cycle_scheduler(100);
    apply_poll(&mut scheduler, vec![cycle_job("edge", "0 0 * * *", true, 100)], Vec::new(), 101);
    assert!(scheduler.is_scheduled("edge"));
    let mut scheduler = cycle_scheduler(100);
    apply_poll(&mut scheduler, vec![cycle_job("early", "0 0 * * *", true, 99)], Vec::new(), 101);
    assert!(!scheduler.is_scheduled("early"));
    assert_eq!(scheduler.job("early"), Some(cycle_job("early", "0 0 * * *", true, 99)));
}

#[test]
fn a_poll_with_a_malformed_update_unschedules_and_reports() {
    let mut scheduler = cycle_scheduler(0);
    apply_load(
        &mut scheduler,
        vec![cycle_job("a", "0 0 * * *", true, 1), cycle_job("b", "0 0 * * *", true, 1)],
        10,
    );
    let skipped = apply_poll(&mut scheduler, vec![cycle_job("a", "oops", true, 20)], Vec::new(), 30);
    assert_eq!(skipped, vec![ScheduleError { name: "a".to_string(), expression: "oops".to_string() }]);
    assert!(!scheduler.is_scheduled("a"));
    assert!(scheduler.is_scheduled("b"));
    assert_eq!(scheduler.job("a"), None);
    assert_eq!(scheduler.last_updated_at(), 30);
}

#[test]
fn the_watermark_never_goes_back_over_polls() {
    let mut scheduler = cycle_scheduler(100);
    let mut last = scheduler.last_updated_at();
    let times: [i64; 6] = [104, 108, 90, 108, 112, i64::MIN];
    for observed_at in times {
        apply_poll(&mut scheduler, Vec::new(), Vec::new(), observed_at);
        assert!(scheduler.last_updated_at() >= last);
        last = scheduler.last_updated_at();
    }
    assert_eq!(last, 112);
}

#[test]
fn a_failed_poll_changes_nothing() {
    let connection: Result<MemoryStore, DBError> =
        Ok(MemoryStore::holding(vec![cycle_job("a", "0 0 * * *", true, 10)]));
    let store = connection.as_ref().unwrap();
    let mut scheduler = cycle_scheduler(0);
    load_jobs(&mut scheduler, store, 50).unwrap();
    let a = scheduler.handle_of("a");
    store.rows.borrow_mut().push(cycle_job("b", "0 0 * * *", true, 60));
    store.down.set(true);
    let step = leader_step(LoopState::POLLING, &mut scheduler, &connection, Role::LEADER, 70);
    assert_eq!(step.next, LoopState::TICKING);
    assert_eq!(step.failure, Some(DBError { message: "store unreachable".to_string() }));
    assert_eq!(scheduler.last_updated_at(), 50);
    assert_eq!(scheduler.handle_of("a"), a);
    assert!(!scheduler.is_scheduled("b"));
    assert_eq!(scheduler.job_count(), 1);
    store.down.set(false);
    let step = leader_step(LoopState::POLLING, &mut scheduler, &connection, Role::LEADER, 74);
    assert!(step.failure.is_none());
    assert!(scheduler.is_scheduled("b"));
    assert_eq!(scheduler.last_updated_at(), 74);
}

#[test]
fn a_poll_whose_second_query_fails_changes_nothing() {
    let store = MemoryStore::holding(vec![cycle_job("a", "0 0 * * *", true, 60)]);
    store.fail_inactive_queries.set(true);
    let mut scheduler = cycle_scheduler(50);
    assert_eq!(
        fetch_job_updates(&mut scheduler, &store, 70),
        Err(DBError { message: "query failed".to_string() })
    );
    assert_eq!(scheduler.last_updated_at(), 50);
    assert_eq!(scheduler.job_count(), 0);
    assert!(!scheduler.is_scheduled("a"));
    assert_eq!(
        update_scheduler(&mut scheduler, &store),
        Err(DBError { message: "query failed".to_string() })
    );
    assert_eq!(scheduler.job_count(), 0);
}

#[test]
fn update_scheduler_replaces_the_job_map_and_returns_the_disabled() {
    let store = MemoryStore::holding(vec![
        cycle_job("a", "0 0 * * *", true, 60),
        cycle_job("b", "0 0 * * *", false, 61),
        cycle_job("c", "0 0 * * *", true, 40),
    ]);
    let mut scheduler = cycle_scheduler(50);
    scheduler.add_jobs(vec![cycle_job("stale", "0 0 * * *", true, 1)]);
    assert_eq!(
        update_scheduler(&mut scheduler, &store),
        Ok(vec![cycle_job("b", "0 0 * * *", false, 61)])
    );
    assert_eq!(scheduler.job("a"), Some(cycle_job("a", "0 0 * * *", true, 60)));
    assert_eq!(scheduler.job("stale"), None);
    assert_eq!(scheduler.job("c"), None);
    assert_eq!(scheduler.scheduled_count(), 0);
    assert_eq!(scheduler.last_updated_at(), 50);
}

#[test]
fn a_follower_steps_down_and_waits() {
    let connection: Result<MemoryStore, DBError> =
        Ok(MemoryStore::holding(vec![cycle_job("a", "0 0 * * *", true, 10)]));
    let store = connection.as_ref().unwrap();
    let mut scheduler = cycle_scheduler(0);
    let mut state = LoopState::WAITING;
    let mut seen = Vec::new();
    let roles = [
        Role::FOLLOWER,
        Role::LEADER,
        Role::LEADER,
        Role::LEADER,
        Role::LEADER,
        Role::LEADER,
        Role::FOLLOWER,
        Role::FOLLOWER,
        Role::FOLLOWER,
    ];
    let mut now = 100;
    for role in roles {
        let step = leader_step(state, &mut scheduler, &connection, role, now);
        seen.push((state, scheduler.scheduled_count()));
        state = step.next;
        now += 4;
    }
    assert_eq!(
        seen,
        vec![
            (LoopState::WAITING, 0),
            (LoopState::WAITING, 0),
            (LoopState::LOADING, 1),
            (LoopState::TICKING, 1),
            (LoopState::POLLING, 1),
            (LoopState::TICKING, 1),
            (LoopState::POLLING, 1),
            (LoopState::STEPPING_DOWN, 0),
            (LoopState::WAITING, 0),
        ]
    );
    assert_eq!(state, LoopState::WAITING);
    assert_eq!(scheduler.job_count(), 0);
}

#[test]
fn run_leader_scheduler_reads_the_clock() {
    let connection: Result<MemoryStore, DBError> =
        Ok(MemoryStore::holding(vec![cycle_job("a", "0 0 * * *", true, 10)]));
    let store = connection.as_ref().unwrap();
    let mut scheduler = cycle_scheduler(0);
    let step = run_leader_scheduler(LoopState::LOADING, &mut scheduler, &connection, Role::LEADER);
    assert_eq!(step.next, LoopState::TICKING);
    assert!(scheduler.is_scheduled("a"));
    assert!(scheduler.last_updated_at() > 1_600_000_000);
    let step = run_leader_scheduler(LoopState::TICKING, &mut scheduler, &connection, Role::LEADER);
    assert!(step.next == LoopState::TICKING || step.next == LoopState::POLLING);
    assert_eq!(step.due, Vec::<Job>::new());
}

#[test]
fn heartbeat_monitor_against_a_store() {
    let store = MemoryStore::holding(Vec::new());
    store.clock.set(1_000);
    let connection: Result<MemoryStore, DBError> = Ok(store);
    assert_eq!(role_should_assume(&connection, "test"), Role::FOLLOWER);
    assert!(heartbeat(&connection, "test"));
    assert_eq!(role_should_assume(&connection, "test"), Role::LEADER);
    if let Ok(store) = &connection {
        store.heartbeats.borrow_mut().push(Heartbeat { server: "a".to_string(), timestamp: 999 });
    }
    assert_eq!(run_health_checks(&connection, "test"), Role::FOLLOWER);
    if let Ok(store) = &connection {
        store.clock.set(1_029);
        assert_eq!(store.heartbeats.borrow().len(), 3);
    }
    assert_eq!(role_should_assume(&connection, "test"), Role::LEADER);
    if let Ok(store) = &connection {
        store.clock.set(1_031);
    }
    assert_eq!(role_should_assume(&connection, "test"), Role::FOLLOWER);
    assert_eq!(run_health_checks(&connection, "test"), Role::LEADER);
    if let Ok(store) = &connection {
        store.down.set(true);
    }
    assert!(!heartbeat(&connection, "test"));
    assert_eq!(run_health_checks(&connection, "test"), Role::FOLLOWER);
}

#[test]
fn without_a_connection_the_instance_follows() {
    let connection: Result<MemoryStore, DBError> =
        Err(DBError { message: "no connection".to_string() });
    assert!(!heartbeat(&connection, "test"));
    assert_eq!(role_should_assume(&connection, "test"), Role::FOLLOWER);
    assert_eq!(run_health_checks(&connection, "test"), Role::FOLLOWER);
}

#[test]
fn a_follower_steps_down_even_when_the_store_is_down() {
    let connection: Result<MemoryStore, DBError> =
        Ok(MemoryStore::holding(vec![cycle_job("a", "0 0 * * *", true, 10)]));
    let store = connection.as_ref().unwrap();
    let mut scheduler = cycle_scheduler(0);
    load_jobs(&mut scheduler, store, 50).unwrap();
    store.down.set(true);
    let step = leader_step(LoopState::POLLING, &mut scheduler, &connection, Role::FOLLOWER, 70);
    assert_eq!(step.next, LoopState::STEPPING_DOWN);
    assert!(step.failure.is_some());
    assert!(scheduler.is_scheduled("a"));
    let step = leader_step(step.next, &mut scheduler, &connection, Role::FOLLOWER, 71);
    assert_eq!(step.next, LoopState::WAITING);
    assert_eq!(scheduler.scheduled_count(), 0);
}

#[test]
fn without_a_connection_a_load_fails_and_is_tried_again() {
    let missing: Result<MemoryStore, DBError> =
        Err(DBError { message: "no connection".to_string() });
    let mut scheduler = cycle_scheduler(5);
    let step = leader_step(LoopState::LOADING, &mut scheduler, &missing, Role::LEADER, 100);
    assert_eq!(step.next, LoopState::LOADING);
    assert_eq!(step.failure, Some(DBError { message: "no connection".to_string() }));
    assert_eq!(step.skipped, Vec::<ScheduleError>::new());
    assert_eq!(scheduler.scheduled_count(), 0);
    assert_eq!(scheduler.last_updated_at(), 5);
    let step = leader_step(LoopState::POLLING, &mut scheduler, &missing, Role::LEADER, 104);
    assert_eq!(step.next, LoopState::TICKING);
    assert_eq!(step.failure, Some(DBError { message: "no connection".to_string() }));
    assert_eq!(scheduler.last_updated_at(), 5);
    let found: Result<MemoryStore, DBError> =
        Ok(MemoryStore::holding(vec![cycle_job("a", "0 0 * * *", true, 10)]));
    let step = leader_step(LoopState::LOADING, &mut scheduler, &found, Role::LEADER, 108);
    assert_eq!(step.next, LoopState::TICKING);
    assert!(scheduler.is_scheduled("a"));
}

#[test]
fn each_instance_judges_by_its_own_identity() {
    let store = MemoryStore::holding(Vec::new());
    store.clock.set(1001);
    store.heartbeats.borrow_mut().push(Heartbeat { server: "A".to_string(), timestamp: 1000 });
    store.heartbeats.borrow_mut().push(Heartbeat { server: "B".to_string(), timestamp: 960 });
    let connection: Result<MemoryStore, DBError> = Ok(store);
    assert_eq!(role_should_assume(&connection, "A"), Role::LEADER);
    assert_eq!(role_should_assume(&connection, "B"), Role::FOLLOWER);
    assert!(heartbeat(&connection, "B"));
    assert_eq!(role_should_assume(&connection, "B"), Role::FOLLOWER);
    assert_eq!(run_health_checks(&connection, "A"), Role::LEADER);
}

#[test]
fn a_poisonous_row_does_not_stop_the_leader() {
    let connection: Result<MemoryStore, DBError> = Ok(MemoryStore::holding(vec![
        cycle_job("stuck", "0/0 * * * *", true, 10),
        cycle_job("dated", "0 0 0 * * * 2029", true, 10),
        cycle_job("fine", "0 0 * * *", true, 10),
    ]));
    let mut scheduler = cycle_scheduler(0);
    let step = leader_step(LoopState::LOADING, &mut scheduler, &connection, Role::LEADER, 50);
    assert_eq!(step.next, LoopState::TICKING);
    assert_eq!(step.skipped.len(), 2);
    assert!(scheduler.is_scheduled("fine"));
    assert_eq!(scheduler.scheduled_count(), 1);
    let step = leader_step(step.next, &mut scheduler, &connection, Role::LEADER, 54);
    assert_eq!(step.next, LoopState::POLLING);
}

#[test]
fn ticks_follow_each_other_until_a_poll_is_due() {
    let connection: Result<MemoryStore, DBError> =
        Ok(MemoryStore::holding(vec![cycle_job("a", "0 0 * * *", true, 10)]));
    let mut scheduler = cycle_scheduler(0);
    let step = leader_step(LoopState::LOADING, &mut scheduler, &connection, Role::LEADER, 100);
    assert_eq!(step.next, LoopState::TICKING);
    let mut state = step.next;
    for now in [100, 101, 102, 103] {
        let step = leader_step(state, &mut scheduler, &connection, Role::LEADER, now);
        assert_eq!(step.next, LoopState::TICKING);
        state = step.next;
    }
    let step = leader_step(state, &mut scheduler, &connection, Role::LEADER, 104);
    assert_eq!(step.next, LoopState::POLLING);
    let step = leader_step(step.next, &mut scheduler, &connection, Role::LEADER, 104);
    assert_eq!(step.next, LoopState::TICKING);
    let step = leader_step(step.next, &mut scheduler, &connection, Role::LEADER, 105);
    assert_eq!(step.next, LoopState::TICKING);
    let step = leader_step(step.next, &mut scheduler, &connection, Role::LEADER, 90);
    assert_eq!(step.next, LoopState::POLLING);
}

#[test]
fn a_failed_poll_is_not_repeated_at_every_tick() {
    let connection: Result<MemoryStore, DBError> = Ok(MemoryStore::holding(Vec::new()));
    let store = connection.as_ref().unwrap();
    let mut scheduler = cycle_scheduler(0);
    leader_step(LoopState::LOADING, &mut scheduler, &connection, Role::LEADER, 100);
    store.down.set(true);
    let step = leader_step(LoopState::POLLING, &mut scheduler, &connection, Role::LEADER, 104);
    assert!(step.failure.is_some());
    assert_eq!(step.next, LoopState::TICKING);
    assert_eq!(scheduler.last_updated_at(), 100);
    let step = leader_step(step.next, &mut scheduler, &connection, Role::LEADER, 105);
    assert_eq!(step.next, LoopState::TICKING);
    let step = leader_step(step.next, &mut scheduler, &connection, Role::LEADER, 108);
    assert_eq!(step.next, LoopState::POLLING);
}
