use codex_tui::app_event::AppEvent;
use codex_tui::app_event::RuntimeProfileTarget;
use codex_tui::profile_management::fallback_route_editor_seed;
use codex_tui::profile_management::parse_fallback_route_editor_contents;
use codex_tui::profile_management::profile_fallback_retry_delay;
use codex_tui::profile_management::profile_fallback_retry_target;
use codex_tui::profile_management::profile_label;
use codex_tui::profile_management::profile_management_root_params;
use codex_tui::profile_management::rewritten_router_state;
use codex_tui::profile_management::root_fallback_summary;
use codex_tui::profile_management::routed_profile_description;
use codex_tui::profile_management::default_profile_description;
use codex_tui::profile_management::DefaultProfileSummary;
use codex_tui::profile_management::fallback_switch_error;
use codex_tui::profile_management::profile_fallback_retry_plan;
use codex_tui::profile_management::profile_fallback_retry_step;
use codex_tui::profile_management::ProfileFallbackRetryPlan;
use codex_tui::profile_management::ProfileFallbackRetryStep;
use codex_tui::profile_management::ConfiguredProfile;
use codex_tui::profile_management::ProfileConfigTable;
use codex_tui::profile_management::default_profile_summary;
use codex_tui::profile_management::routed_profile_summaries;
use codex_tui::profile_management::ModelProviderSummary;
use codex_tui::profile_management::ProfileFallbackAction;
use codex_tui::profile_management::ProfileRouteEntry;
use codex_tui::profile_management::ProfileRouterState;
use codex_tui::profile_management::ProviderCatalog;
use codex_tui::profile_management::RoutedProfileSummary;
use codex_tui::workflow_definition::WorkflowDuration;

fn secs(n: u64) -> WorkflowDuration {
    WorkflowDuration { secs: n, nanos: 0 }
}

fn test_profiles() -> Vec<RoutedProfileSummary> {
    vec![
        RoutedProfileSummary {
            id: "primary".to_string(),
            provider_label: "OpenAI".to_string(),
            model: Some("gpt-5".to_string()),
            base_url: Some("https://api.primary.example/v1".to_string()),
            route_position: Some(1),
        },
        RoutedProfileSummary {
            id: "secondary".to_string(),
            provider_label: "OpenAI".to_string(),
            model: Some("gpt-5".to_string()),
            base_url: Some("https://api.secondary.example/v1".to_string()),
            route_position: Some(2),
        },
        RoutedProfileSummary {
            id: "tertiary".to_string(),
            provider_label: "OpenAI".to_string(),
            model: Some("gpt-5".to_string()),
            base_url: Some("https://api.tertiary.example/v1".to_string()),
            route_position: None,
        },
    ]
}

fn test_router_state() -> ProfileRouterState {
    ProfileRouterState {
        version: 1,
        active_profile_id: Some("primary".to_string()),
        routes: vec![
            ProfileRouteEntry {
                profile_id: "primary".to_string(),
            },
            ProfileRouteEntry {
                profile_id: "secondary".to_string(),
            },
        ],
    }
}

#[test]
fn fallback_route_editor_seed_uses_current_profiles_only() {
    let seed = fallback_route_editor_seed(&test_profiles(), &test_router_state());

    assert_eq!(
        seed,
        [
            "# Reorder fallback profiles, one id per line.\n",
            "# Omitted profiles are allowed.\n",
            "# Keep only profiles currently defined in config.toml, at most once each.\n",
            "# Blank lines and lines starting with # are ignored.\n",
            "\n",
            "primary\n",
            "secondary\n",
            "tertiary\n"
        ]
        .concat()
    );
}

#[test]
fn fallback_route_parser_accepts_partial_unique_profile_list() {
    let current_profile_ids = vec![
        "primary".to_string(),
        "secondary".to_string(),
        "tertiary".to_string(),
    ];

    let ordered = parse_fallback_route_editor_contents(
        "# comment\nsecondary\nprimary\ntertiary\n",
        &current_profile_ids,
    )
    .expect("valid fallback route");
    assert_eq!(
        ordered,
        vec![
            "secondary".to_string(),
            "primary".to_string(),
            "tertiary".to_string()
        ]
    );

    let partial =
        parse_fallback_route_editor_contents("secondary\nprimary\n", &current_profile_ids)
            .expect("omitted profiles should be allowed");
    assert_eq!(
        partial,
        vec!["secondary".to_string(), "primary".to_string()]
    );

    let duplicate = parse_fallback_route_editor_contents(
        "secondary\nprimary\nprimary\ntertiary\n",
        &current_profile_ids,
    )
    .expect_err("duplicate profile should fail");
    assert_eq!(
        duplicate,
        "Duplicate profile `primary` in fallback config. Each profile must appear exactly once."
    );

    let unknown = parse_fallback_route_editor_contents(
        "secondary\nunknown\nprimary\ntertiary\n",
        &current_profile_ids,
    )
    .expect_err("unknown profile should fail");
    assert_eq!(
        unknown,
        "Unknown profile `unknown` in fallback config. Keep only profiles currently defined in config.toml."
    );
}

#[test]
fn profile_fallback_retry_delay_uses_exponential_backoff_with_cap() {
    let expected = [
        secs(0),
        secs(0),
        secs(1),
        secs(2),
        secs(4),
        secs(8),
        secs(16),
        secs(30),
        secs(30),
    ];

    for (attempt, delay) in expected.into_iter().enumerate() {
        assert_eq!(profile_fallback_retry_delay(attempt as u32), delay);
    }
}

#[test]
fn retry_same_profile_first_only_rotates_after_same_profile_retry_is_consumed() {
    let router_state = test_router_state();

    assert_eq!(
        profile_fallback_retry_target(
            ProfileFallbackAction::RetrySameProfileFirst,
            &router_state,
            Some("primary"),
            false,
        ),
        Some("primary".to_string())
    );
    assert_eq!(
        profile_fallback_retry_target(
            ProfileFallbackAction::RetrySameProfileFirst,
            &router_state,
            Some("primary"),
            true,
        ),
        Some("secondary".to_string())
    );
}

#[test]
fn switch_profile_immediately_uses_next_profile_in_route_order() {
    let router_state = test_router_state();

    assert_eq!(
        profile_fallback_retry_target(
            ProfileFallbackAction::SwitchProfileImmediately,
            &router_state,
            Some("primary"),
            false,
        ),
        Some("secondary".to_string())
    );
    assert_eq!(
        profile_fallback_retry_target(
            ProfileFallbackAction::SwitchProfileImmediately,
            &router_state,
            None,
            false,
        ),
        Some("primary".to_string())
    );
}

#[test]
fn rewritten_router_state_drops_stale_entries_and_preserves_active_profile() {
    let state = rewritten_router_state(
        &ProfileRouterState {
            version: 1,
            active_profile_id: Some("secondary".to_string()),
            routes: vec![
                ProfileRouteEntry {
                    profile_id: "stale".to_string(),
                },
                ProfileRouteEntry {
                    profile_id: "primary".to_string(),
                },
            ],
        },
        vec![
            "tertiary".to_string(),
            "secondary".to_string(),
            "primary".to_string(),
        ],
    );

    assert_eq!(
        state,
        ProfileRouterState {
            version: 1,
            active_profile_id: Some("secondary".to_string()),
            routes: vec![
                ProfileRouteEntry {
                    profile_id: "tertiary".to_string(),
                },
                ProfileRouteEntry {
                    profile_id: "secondary".to_string(),
                },
                ProfileRouteEntry {
                    profile_id: "primary".to_string(),
                },
            ],
        }
    );
}

#[test]
fn rewritten_router_state_clears_missing_active_profile() {
    let state = rewritten_router_state(
        &ProfileRouterState {
            version: 1,
            active_profile_id: Some("stale".to_string()),
            routes: Vec::new(),
        },
        vec!["primary".to_string()],
    );

    assert_eq!(
        state,
        ProfileRouterState {
            version: 1,
            active_profile_id: None,
            routes: vec![ProfileRouteEntry {
                profile_id: "primary".to_string(),
            }],
        }
    );
}

#[test]
fn profile_management_popup_fallback_item_opens_editor_flow() {
    let params = profile_management_root_params(
        Some("primary"),
        &DefaultProfileSummary {
            provider_label: "OpenAI".to_string(),
            model: Some("gpt-5".to_string()),
            base_url: Some("https://api.openai.com/v1".to_string()),
        },
        &test_profiles(),
        &test_router_state(),
        false,
        None,
    );

    assert_eq!(params.items[1].name, "Fallback Config");
    assert_eq!(
        params.items[1].selected_description.as_deref(),
        Some(
            "Open your external editor and reorder all named profiles. Saving rewrites the fallback route file from scratch."
        )
    );
    assert_eq!(params.items[1].dismiss_on_select, false);
    assert!(matches!(
        params.items[1].actions.first(),
        Some(AppEvent::EditProfileFallbackConfig)
    ));
}

#[test]
fn profile_management_popup_fallback_item_stays_enabled_while_task_running() {
    let params = profile_management_root_params(
        Some("primary"),
        &DefaultProfileSummary {
            provider_label: "OpenAI".to_string(),
            model: Some("gpt-5".to_string()),
            base_url: None,
        },
        &[RoutedProfileSummary {
            id: "primary".to_string(),
            provider_label: "OpenAI".to_string(),
            model: Some("gpt-5".to_string()),
            base_url: None,
            route_position: Some(1),
        }],
        &ProfileRouterState {
            version: 1,
            active_profile_id: Some("primary".to_string()),
            routes: vec![ProfileRouteEntry {
                profile_id: "primary".to_string(),
            }],
        },
        true,
        None,
    );

    assert_eq!(params.items[1].is_disabled, false);
}

#[test]
fn profile_management_panel_disables_switches_while_task_running() {
    let params = profile_management_root_params(
        Some("primary"),
        &DefaultProfileSummary {
            provider_label: "OpenAI".to_string(),
            model: Some("gpt-5".to_string()),
            base_url: None,
        },
        &[RoutedProfileSummary {
            id: "primary".to_string(),
            provider_label: "OpenAI".to_string(),
            model: Some("gpt-5".to_string()),
            base_url: None,
            route_position: Some(1),
        }],
        &ProfileRouterState {
            version: 1,
            active_profile_id: Some("primary".to_string()),
            routes: vec![ProfileRouteEntry {
                profile_id: "primary".to_string(),
            }],
        },
        true,
        None,
    );

    assert_eq!(params.items[0].is_disabled, true);
    assert_eq!(params.items[1].is_disabled, false);
    assert_eq!(params.items[2].is_disabled, true);
    assert_eq!(
        params.items[0].disabled_reason.as_deref(),
        Some("Wait for the current task to finish before switching profiles.")
    );
    assert_eq!(
        params.items[2].disabled_reason.as_deref(),
        Some("Already active.")
    );
}

#[test]
fn profile_panel_lists_profiles_with_descriptions() {
    let params = profile_management_root_params(
        None,
        &DefaultProfileSummary {
            provider_label: "OpenAI".to_string(),
            model: Some("gpt-5".to_string()),
            base_url: Some("https://api.openai.com/v1".to_string()),
        },
        &test_profiles(),
        &test_router_state(),
        false,
        Some(2),
    );
    assert_eq!(params.view_id.as_deref(), Some("profile-management"));
    assert_eq!(params.subtitle.as_deref(), Some("Current runtime: default · 3 named profile(s)."));
    assert_eq!(params.items.len(), 5);
    assert_eq!(params.initial_selected_idx, Some(2));
    assert!(params.items[0].is_current);
    assert_eq!(params.items[0].disabled_reason.as_deref(), Some("Already active."));
    assert_eq!(
        params.items[0].description.as_deref(),
        Some("provider: OpenAI · https://api.openai.com/v1 · model: gpt-5 · root config")
    );
    assert_eq!(
        params.items[1].description.as_deref(),
        Some("2 profile(s) in route · active fallback: primary")
    );
    assert_eq!(params.items[2].name, "primary");
    assert_eq!(
        params.items[2].description.as_deref(),
        Some("provider: OpenAI · https://api.primary.example/v1 · model: gpt-5 · fallback #1")
    );
    assert_eq!(
        params.items[4].description.as_deref(),
        Some("provider: OpenAI · https://api.tertiary.example/v1 · model: gpt-5 · not in fallback route")
    );
    assert_eq!(
        params.items[3].actions,
        vec![AppEvent::SwitchRuntimeProfile {
            target: RuntimeProfileTarget::Named("secondary".to_string())
        }]
    );
    assert_eq!(
        params.items[2].search_value.as_deref(),
        Some("primary provider: OpenAI · https://api.primary.example/v1 · model: gpt-5 · fallback #1")
    );
}

#[test]
fn profile_panel_without_named_profiles_shows_a_note() {
    let params = profile_management_root_params(
        None,
        &DefaultProfileSummary {
            provider_label: "OpenAI".to_string(),
            model: None,
            base_url: None,
        },
        &[],
        &ProfileRouterState::default(),
        false,
        None,
    );
    assert_eq!(params.items.len(), 3);
    assert_eq!(params.items[2].name, "No named profiles");
    assert!(params.items[2].is_disabled);
    assert_eq!(
        params.items[1].description.as_deref(),
        Some("No profiles in the fallback route.")
    );
    assert_eq!(params.subtitle.as_deref(), Some("Current runtime: default · 0 named profile(s)."));
}

#[test]
fn descriptions_and_labels() {
    assert_eq!(profile_label(None), "default");
    assert_eq!(profile_label(Some("alt")), "alt");
    assert_eq!(
        default_profile_description(&DefaultProfileSummary {
            provider_label: "Local".to_string(),
            model: None,
            base_url: None,
        }),
        "provider: Local · root config"
    );
    assert_eq!(
        routed_profile_description(&RoutedProfileSummary {
            id: "x".to_string(),
            provider_label: "Local".to_string(),
            model: Some("m".to_string()),
            base_url: None,
            route_position: Some(12),
        }),
        "provider: Local · model: m · fallback #12"
    );
    assert_eq!(
        root_fallback_summary(&ProfileRouterState {
            version: 1,
            active_profile_id: None,
            routes: vec![ProfileRouteEntry { profile_id: "a".to_string() }],
        }),
        "1 profile(s) in route · active fallback: none"
    );
}

#[test]
fn retry_target_falls_back_to_active_profile_at_route_end() {
    let router_state = test_router_state();
    assert_eq!(
        profile_fallback_retry_target(
            ProfileFallbackAction::SwitchProfileImmediately,
            &router_state,
            Some("secondary"),
            false,
        ),
        Some("secondary".to_string())
    );
    assert_eq!(
        profile_fallback_retry_target(
            ProfileFallbackAction::SwitchProfileImmediately,
            &ProfileRouterState::default(),
            None,
            true,
        ),
        None
    );
}

#[test]
fn fallback_route_parser_ignores_blank_lines_and_carriage_returns() {
    let ids = vec!["a".to_string(), "b".to_string()];
    assert_eq!(
        parse_fallback_route_editor_contents("\r\n  b  \r\n\n# a\na", &ids),
        Ok(vec!["b".to_string(), "a".to_string()])
    );
    assert_eq!(parse_fallback_route_editor_contents("", &ids), Ok(Vec::new()));
}

#[test]
fn seed_lists_route_profiles_first_and_parses_back() {
    let profiles = test_profiles();
    let state = ProfileRouterState {
        version: 1,
        active_profile_id: None,
        routes: vec![
            ProfileRouteEntry { profile_id: "tertiary".to_string() },
            ProfileRouteEntry { profile_id: "gone".to_string() },
            ProfileRouteEntry { profile_id: "tertiary".to_string() },
            ProfileRouteEntry { profile_id: "secondary".to_string() },
        ],
    };
    let seed = fallback_route_editor_seed(&profiles, &state);
    assert!(seed.ends_with("\n\ntertiary\nsecondary\nprimary\n"));
    let ids: Vec<String> = profiles.iter().map(|p| p.id.clone()).collect();
    assert_eq!(
        parse_fallback_route_editor_contents(&seed, &ids),
        Ok(vec!["tertiary".to_string(), "secondary".to_string(), "primary".to_string()])
    );
}

#[test]
fn provider_label_prefers_current_then_known_then_id() {
    let catalog = ProviderCatalog {
        current_provider_id: "openai".to_string(),
        current_provider: ModelProviderSummary {
            name: "OpenAI".to_string(),
            base_url: Some("https://api.openai.com/v1".to_string()),
        },
        providers: vec![(
            "local".to_string(),
            ModelProviderSummary { name: "Local".to_string(), base_url: None },
        )],
    };
    assert_eq!(
        catalog.provider_label_and_base_url("openai"),
        ("OpenAI".to_string(), Some("https://api.openai.com/v1".to_string()))
    );
    assert_eq!(catalog.provider_label_and_base_url("local"), ("Local".to_string(), None));
    assert_eq!(catalog.provider_label_and_base_url("other"), ("other".to_string(), None));
}

fn catalog() -> ProviderCatalog {
    ProviderCatalog {
        current_provider_id: "openai".to_string(),
        current_provider: ModelProviderSummary { name: "OpenAI".to_string(), base_url: None },
        providers: vec![(
            "local".to_string(),
            ModelProviderSummary { name: "Local".to_string(), base_url: Some("http://localhost:8080".to_string()) },
        )],
    }
}

fn configured(id: &str, model: Option<&str>, provider: Option<&str>) -> ConfiguredProfile {
    ConfiguredProfile {
        id: id.to_string(),
        model: model.map(|m| m.to_string()),
        model_provider: provider.map(|p| p.to_string()),
    }
}

#[test]
fn routed_profiles_are_sorted_and_inherit_the_root_settings() {
    let table = ProfileConfigTable {
        model: Some("gpt-5".to_string()),
        model_provider: None,
        profiles: Some(vec![
            configured("secondary", None, Some("local")),
            configured("primary", Some("o3"), None),
            configured("aux", None, Some("custom")),
        ]),
    };
    let summaries = routed_profile_summaries(Some(&table), &catalog(), &test_router_state());
    let ids: Vec<&str> = summaries.iter().map(|s| s.id.as_str()).collect();
    assert_eq!(ids, vec!["aux", "primary", "secondary"]);
    assert_eq!(
        summaries[0],
        RoutedProfileSummary {
            id: "aux".to_string(),
            provider_label: "custom".to_string(),
            model: Some("gpt-5".to_string()),
            base_url: None,
            route_position: None,
        }
    );
    assert_eq!(
        summaries[1],
        RoutedProfileSummary {
            id: "primary".to_string(),
            provider_label: "OpenAI".to_string(),
            model: Some("o3".to_string()),
            base_url: None,
            route_position: Some(1),
        }
    );
    assert_eq!(summaries[2].provider_label, "Local");
    assert_eq!(summaries[2].base_url.as_deref(), Some("http://localhost:8080"));
    assert_eq!(summaries[2].route_position, Some(2));
    assert!(routed_profile_summaries(None, &catalog(), &test_router_state()).is_empty());
    let no_profiles = ProfileConfigTable { model: None, model_provider: None, profiles: None };
    assert!(routed_profile_summaries(Some(&no_profiles), &catalog(), &test_router_state()).is_empty());
}

#[test]
fn default_profile_uses_the_root_provider() {
    let table = ProfileConfigTable { model: Some("gpt-5".to_string()), model_provider: Some("local".to_string()), profiles: None };
    assert_eq!(
        default_profile_summary(Some(&table), &catalog()),
        DefaultProfileSummary {
            provider_label: "Local".to_string(),
            model: Some("gpt-5".to_string()),
            base_url: Some("http://localhost:8080".to_string()),
        }
    );
    assert_eq!(
        default_profile_summary(None, &catalog()),
        DefaultProfileSummary { provider_label: "OpenAI".to_string(), model: None, base_url: None }
    );
}

#[test]
fn failed_turns_retry_on_the_fallback_profile_after_the_delay() {
    let router = test_router_state();
    assert_eq!(
        profile_fallback_retry_plan(
            ProfileFallbackAction::SwitchProfileImmediately,
            &router,
            Some("primary"),
            false,
            4,
            0,
            false,
            "Turn failed.".to_string(),
        ),
        ProfileFallbackRetryPlan::ShowError { message: "Turn failed.".to_string() }
    );
    assert_eq!(
        profile_fallback_retry_plan(
            ProfileFallbackAction::SwitchProfileImmediately,
            &router,
            Some("primary"),
            true,
            4,
            0,
            false,
            "Turn failed.".to_string(),
        ),
        ProfileFallbackRetryPlan::RetryNow {
            generation: 4,
            profile_id: Some("secondary".to_string()),
            history_message: "Retrying the last turn with profile `secondary`.".to_string(),
        }
    );
    assert_eq!(
        profile_fallback_retry_plan(
            ProfileFallbackAction::SwitchProfileImmediately,
            &router,
            Some("primary"),
            true,
            5,
            2,
            false,
            "Turn failed.".to_string(),
        ),
        ProfileFallbackRetryPlan::RetryLater {
            generation: 5,
            profile_id: Some("secondary".to_string()),
            history_message: "Retrying the last turn with profile `secondary`.".to_string(),
            notice: "Turn failed. Retrying with profile `secondary` in 2s.".to_string(),
            delay: WorkflowDuration { secs: 2, nanos: 0 },
        }
    );
}

#[test]
fn scheduled_retries_switch_only_when_needed() {
    assert_eq!(profile_fallback_retry_step(false, 3, 3, None, None), ProfileFallbackRetryStep::Skip);
    assert_eq!(profile_fallback_retry_step(true, 4, 3, None, None), ProfileFallbackRetryStep::Skip);
    assert_eq!(profile_fallback_retry_step(true, 3, 3, Some("a"), Some("a")), ProfileFallbackRetryStep::Submit);
    assert_eq!(profile_fallback_retry_step(true, 3, 3, Some("a"), None), ProfileFallbackRetryStep::SwitchThenSubmit);
    assert_eq!(
        fallback_switch_error(None, "config error"),
        "Failed to switch to fallback profile `default`: config error"
    );
}

#[test]
fn fallback_route_parser_fails_on_the_first_bad_line() {
    let ids = vec!["a".to_string(), "b".to_string()];
    assert_eq!(
        parse_fallback_route_editor_contents("# order\n a \n\nb\na\nzzz\n", &ids),
        Err("Duplicate profile `a` in fallback config. Each profile must appear exactly once.".to_string())
    );
    assert_eq!(
        parse_fallback_route_editor_contents("zzz\na\na\n", &ids),
        Err("Unknown profile `zzz` in fallback config. Keep only profiles currently defined in config.toml.".to_string())
    );
    assert_eq!(parse_fallback_route_editor_contents("  # only comments\n\n", &ids), Ok(Vec::new()));
}
