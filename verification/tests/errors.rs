use rutis::diagnostics::DependencyStatus;
use rutis::error::{
    aggregate_arcs, aggregate_errors, format_for_sink, join_panic_error, panic_error,
    plugin_failure, validation_issue, CallSite, CordisError, ErrorSource, JoinFailure,
    PanicPayload, ServiceReadError, ServiceReadFailure,
};
use rutis::fiber::{FiberState, PluginId};
use rutis::key::{InstanceId, InstanceIds, TypeKey};
use rutis::view::{DisposeWaitError, Elapsed};
use std::sync::Arc;

fn foreign(message: &str, source: Option<ErrorSource>) -> ErrorSource {
    ErrorSource::Foreign {
        message: message.to_string(),
        debug: format!("{message:?}"),
        source: source.map(Box::new),
    }
}

#[test]
fn plugin_failure_display_and_sink_preserve_each_cause_once() {
    let error = CordisError::PluginFailed(foreign("outer cause", Some(foreign("inner cause", None))));
    assert_eq!(error.message(), "plugin failed: outer cause");
    assert_eq!(
        format_for_sink(&error),
        "plugin failed: outer cause\n  caused by: inner cause"
    );
    match &error {
        CordisError::PluginFailed(ErrorSource::Foreign { message, .. }) => {
            assert_eq!(message, "outer cause")
        }
        _ => panic!("no plugin failure"),
    }
}

#[test]
fn sink_formats_aggregate_members_without_debug_noise() {
    let error = CordisError::Aggregate {
        errors: vec![
            Arc::new(plugin_failure("cleanup detail")),
            Arc::new(CordisError::ServiceNotFound("missing".to_string())),
        ],
    };
    assert_eq!(
        format_for_sink(&error),
        "multiple errors:\n1. plugin failed: cleanup detail\n2. service \"missing\" not found in scope"
    );
}

#[test]
fn sink_recurses_into_aggregate_used_as_plugin_failure_source() {
    let nested = CordisError::Aggregate {
        errors: vec![Arc::new(CordisError::ServiceNotFound("nested".to_string()))],
    };
    let error = CordisError::PluginFailed(ErrorSource::Cordis(Box::new(nested)));
    assert_eq!(
        format_for_sink(&error),
        "plugin failed: multiple errors:\n1. service \"nested\" not found in scope"
    );
    assert_eq!(
        error.message(),
        "plugin failed: multiple errors: [ServiceNotFound(\"nested\")]"
    );
}

#[test]
fn nested_aggregates_are_indented() {
    let inner = CordisError::Aggregate {
        errors: vec![Arc::new(CordisError::Closed), Arc::new(CordisError::InactiveEffect)],
    };
    let outer = CordisError::Aggregate {
        errors: vec![Arc::new(inner), Arc::new(CordisError::Closed)],
    };
    assert_eq!(
        format_for_sink(&outer),
        "multiple errors:\n1. multiple errors:\n   1. root has been shut down\n   2. fiber disposed\n2. root has been shut down"
    );
}

#[test]
fn names_are_quoted_and_escaped() {
    let error = CordisError::ServiceNotFound("a\"b\n".to_string());
    assert_eq!(
        format_for_sink(&error),
        "service \"a\\\"b\\n\" not found in scope"
    );
    let exists = CordisError::ServiceExists("x".to_string());
    assert_eq!(format_for_sink(&exists), "service \"x\" already registered in scope");
}

#[test]
fn messages_of_single_errors() {
    let mut ids = InstanceIds::new();
    let id = InstanceId::allocate(&mut ids);
    let cases = vec![
        (CordisError::Closed, "root has been shut down".to_string()),
        (CordisError::InactiveEffect, "fiber disposed".to_string()),
        (
            validation_issue("port".to_string()),
            "config validation failed: [\"port\"]".to_string(),
        ),
        (
            CordisError::InjectUnsatisfied(vec!["a".to_string(), "b".to_string()]),
            "dependency unsatisfied: [\"a\", \"b\"]".to_string(),
        ),
        (
            CordisError::InstanceOutOfScope { instance: id },
            format!("instance {} is outside the caller's fiber subtree", id.to_text()),
        ),
    ];
    for (error, expected) in cases {
        assert_eq!(error.message(), expected);
        assert_eq!(format_for_sink(&error), expected);
    }
}

#[test]
fn read_errors_name_key_reader_and_place() {
    let mut ids = InstanceIds::new();
    let error = ServiceReadError {
        key: TypeKey::keyed::<u8>("u8", "port"),
        plugin_id: PluginId(7),
        instance: InstanceId::allocate(&mut ids),
        location: CallSite {
            file: "src/main.rs",
            line: 12,
            column: 5,
        },
        reason: ServiceReadFailure::Unavailable(DependencyStatus::ProviderInactive(
            FiberState::Loading,
        )),
    };
    assert_eq!(
        error.to_text(),
        "strict service read u8#port by fiber PluginId(7) instance 1 at src/main.rs:12:5: declared dependency unavailable (ProviderInactive(Loading))"
    );
    assert_eq!(ServiceReadFailure::Undeclared.to_text(), "dependency not declared");
    assert_eq!(
        ServiceReadFailure::OutOfScope.to_text(),
        "instance outside caller's fiber ancestry"
    );
    assert_eq!(ServiceReadFailure::Inactive.to_text(), "caller context inactive");
    assert_eq!(
        ServiceReadFailure::TypeMismatch.to_text(),
        "service key has a different value type"
    );
}

#[test]
fn aggregates_list_the_diagnostic_forms_of_their_members() {
    let mut ids = InstanceIds::new();
    let instance = InstanceId::allocate(&mut ids);
    let read = ServiceReadError {
        key: TypeKey::keyed::<u8>("u8", "port"),
        plugin_id: PluginId(7),
        instance,
        location: CallSite {
            file: "a\"b.rs",
            line: 12,
            column: 5,
        },
        reason: ServiceReadFailure::Unavailable(DependencyStatus::Missing),
    };
    let cases = vec![
        (
            CordisError::ServiceRead(read),
            "ServiceRead(ServiceReadError { key: u8#port, plugin_id: PluginId(7), instance: InstanceId(1), location: Location { file: \"a\\\"b.rs\", line: 12, column: 5 }, reason: Unavailable(Missing) })",
        ),
        (CordisError::Closed, "Closed"),
        (CordisError::InactiveEffect, "InactiveEffect"),
        (plugin_failure("why"), "PluginFailed(\"why\")"),
        (
            CordisError::PluginFailed(ErrorSource::Cordis(Box::new(CordisError::Closed))),
            "PluginFailed(Closed)",
        ),
        (
            validation_issue("port".to_string()),
            "Validation { issues: [\"port\"] }",
        ),
        (
            CordisError::InjectUnsatisfied(vec!["a".to_string(), "b".to_string()]),
            "InjectUnsatisfied([\"a\", \"b\"])",
        ),
        (
            CordisError::ServiceExists("x".to_string()),
            "ServiceExists(\"x\")",
        ),
        (
            CordisError::InstanceOutOfScope { instance },
            "InstanceOutOfScope { instance: InstanceId(1) }",
        ),
        (
            CordisError::InactiveGeneration {
                generation: 2,
                state: FiberState::Failed,
            },
            "InactiveGeneration { generation: 2, state: Failed }",
        ),
        (
            CordisError::StaleGeneration {
                generation: 2,
                current: 3,
            },
            "StaleGeneration { generation: 2, current: 3 }",
        ),
        (
            CordisError::Aggregate {
                errors: vec![Arc::new(CordisError::Closed), Arc::new(CordisError::Closed)],
            },
            "Aggregate { errors: [Closed, Closed] }",
        ),
    ];
    let mut errors = Vec::new();
    let mut forms = Vec::new();
    for (error, form) in cases {
        errors.push(Arc::new(error));
        forms.push(form);
    }
    let all = CordisError::Aggregate { errors };
    assert_eq!(
        all.message(),
        format!("multiple errors: [{}]", forms.join(", "))
    );
    let failed = DisposeWaitError::Failed(Arc::new(CordisError::Aggregate { errors: vec![] }));
    assert_eq!(failed.to_text(), "fiber disposal failed: multiple errors: []");
}

#[test]
fn one_error_stays_itself_and_several_are_kept_apart() {
    assert!(aggregate_arcs(vec![]).is_none());
    let one = Arc::new(CordisError::Closed);
    let kept = aggregate_arcs(vec![one.clone()]).unwrap();
    assert!(Arc::ptr_eq(&one, &kept));
    let nested = aggregate_arcs(vec![one.clone(), Arc::new(CordisError::InactiveEffect)]).unwrap();
    let outer = aggregate_arcs(vec![nested.clone(), one.clone()]).unwrap();
    match &*outer {
        CordisError::Aggregate { errors } => {
            assert_eq!(errors.len(), 2);
            assert!(Arc::ptr_eq(&errors[0], &nested));
            assert!(Arc::ptr_eq(&errors[1], &one));
        }
        _ => panic!("no aggregate"),
    }
    assert!(matches!(
        aggregate_errors(vec![CordisError::Closed]),
        Some(CordisError::Closed)
    ));
}

#[test]
fn panics_become_plugin_failures() {
    let text = panic_error(PanicPayload::Text("boom".to_string()));
    assert_eq!(text.message(), "plugin failed: boom");
    let opaque = panic_error(PanicPayload::Opaque);
    assert_eq!(opaque.message(), "plugin failed: panic in task");
    let cancelled = join_panic_error(JoinFailure::Cancelled);
    assert_eq!(
        cancelled.message(),
        "plugin failed: task cancelled before completion"
    );
}

#[test]
fn waiting_errors_name_the_fiber() {
    let timed_out = DisposeWaitError::TimedOut {
        plugin_id: PluginId(3),
        generation: 2,
        state: FiberState::Unloading,
        elapsed: Elapsed {
            secs: 1,
            nanos: 500_000_000,
        },
    };
    assert_eq!(
        timed_out.to_text(),
        "fiber PluginId(3) generation 2 still Unloading after 1.5s"
    );
    let failed = DisposeWaitError::Failed(Arc::new(plugin_failure("late")));
    assert_eq!(
        failed.to_text(),
        "fiber disposal failed: plugin failed: late"
    );
}
