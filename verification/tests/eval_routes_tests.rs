use hirsel::eval_routes::{
    cancel_running_evals, clear_paused_evals, complete_eval, get_eval, get_eval_by_name, get_running_eval,
    has_paused_eval, list_evals, set_eval_pid, start_eval, CancelEvalsResponse, EvalIdResponse,
};
use hirsel::run_state::{EvalStatus, SQLiteState};

#[test]
fn eval_endpoints_run_against_the_state() {
    let mut s = SQLiteState::new();
    let a = start_eval(&mut s, "main", Some("smoke"), Some("/tmp/log"), "t0");
    let b = start_eval(&mut s, "main", Some("full"), None, "t1");
    let id = EvalIdResponse { id: b };
    assert_eq!((a, id.id), (1, 2));
    assert_eq!(list_evals(&s, -1).len(), 2);
    assert_eq!(list_evals(&s, 1)[0].id, 1);
    assert_eq!(get_eval_by_name(&s, "full").unwrap().id, 2);
    assert_eq!(get_running_eval(&s).unwrap().id, 2);
    set_eval_pid(&mut s, a, 77);
    assert_eq!(get_eval(&s, a).unwrap().pid, Some(77));
    complete_eval(&mut s, a, true, "ok", "t2");
    assert_eq!(get_eval(&s, a).unwrap().status, EvalStatus::Passed);
    let cancelled = CancelEvalsResponse { count: cancel_running_evals(&mut s, "Run paused", "t3") };
    assert_eq!(cancelled.count, 1);
    assert!(has_paused_eval(&s));
    clear_paused_evals(&mut s);
    assert!(!has_paused_eval(&s));
    assert!(get_running_eval(&s).is_none());
}
