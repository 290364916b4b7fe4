use aegis_backend::launcher::parse_agent_count;
use aegis_backend::registry::ProcessRegistry;

// The shape of the batch-spawn handler: the count is parsed before anything
// is spawned or registered.
fn spawn_agents_stub(
    reg: &mut ProcessRegistry<u8>,
    count_text: &str,
    pids: &[u32],
) -> Result<Vec<String>, String> {
    let count = parse_agent_count(count_text)?;
    let mut ids = Vec::new();
    for k in 0..count {
        ids.push(
            reg.register(pids[k], 0)
                .map_err(|_| "already registered".to_string())?,
        );
    }
    Ok(ids)
}

#[test]
fn register_then_terminate_round_trip() {
    let mut reg: ProcessRegistry<i32> = ProcessRegistry::new();
    let id = reg.register(1234, 7).unwrap();
    assert_eq!(id, "1234");
    assert!(reg.contains_id("1234"));
    assert!(reg.contains_pid(1234));
    assert_eq!(reg.len(), 1);
    assert_eq!(reg.terminate("1234"), Some(7));
    assert!(!reg.contains_id("1234"));
    assert_eq!(reg.len(), 0);
}

#[test]
fn terminate_nonexistent_is_a_no_op() {
    let mut reg: ProcessRegistry<i32> = ProcessRegistry::new();
    assert_eq!(reg.terminate("nonexistent"), None);
    assert_eq!(reg.len(), 0);
    let id = reg.register(9, 1).unwrap();
    assert_eq!(id, "9");
    assert_eq!(reg.terminate("nonexistent"), None);
    assert_eq!(reg.terminate("10"), None);
    assert_eq!(reg.len(), 1);
}

#[test]
fn terminate_takes_only_the_identifier_it_issued() {
    let mut reg: ProcessRegistry<i32> = ProcessRegistry::new();
    reg.register(7, 70).unwrap();
    // "007" was never issued as an identifier, so it names nothing.
    assert_eq!(reg.terminate("007"), None);
    assert!(reg.contains_pid(7));
    assert_eq!(reg.terminate("7"), Some(70));
}

#[test]
fn batch_of_spawns_is_independently_terminable() {
    let mut reg: ProcessRegistry<i32> = ProcessRegistry::new();
    let pids = [10u32, 11, 12];
    let mut ids = Vec::new();
    for (k, pid) in pids.iter().enumerate() {
        ids.push(reg.register(*pid, k as i32).unwrap());
    }
    assert_eq!(ids.len(), 3);
    assert_eq!(ids, vec!["10", "11", "12"]);
    for i in 0..ids.len() {
        for j in 0..ids.len() {
            if i != j {
                assert_ne!(ids[i], ids[j]);
            }
        }
    }
    assert_eq!(reg.len(), 3);
    assert_eq!(reg.terminate(&ids[1]), Some(1));
    assert_eq!(reg.len(), 2);
    assert!(reg.contains_id("10"));
    assert!(!reg.contains_id("11"));
    assert!(reg.contains_id("12"));
    assert_eq!(reg.terminate(&ids[0]), Some(0));
    assert_eq!(reg.terminate(&ids[2]), Some(2));
    assert_eq!(reg.len(), 0);
}

#[test]
fn bad_count_fails_before_any_registration() {
    let mut reg: ProcessRegistry<u8> = ProcessRegistry::new();
    let result = spawn_agents_stub(&mut reg, "abc", &[20, 21, 22]);
    assert_eq!(
        result,
        Err("Failed to parse num_of_agents_to_spawn: invalid digit found in string".to_string())
    );
    assert_eq!(reg.len(), 0);

    let ids = spawn_agents_stub(&mut reg, "3", &[20, 21, 22]).unwrap();
    assert_eq!(ids, vec!["20", "21", "22"]);
    assert_eq!(reg.len(), 3);
}

#[test]
fn duplicate_registration_hands_the_handle_back() {
    let mut reg: ProcessRegistry<i32> = ProcessRegistry::new();
    reg.register(5, 50).unwrap();
    assert_eq!(reg.register(5, 51), Err(51));
    assert_eq!(reg.len(), 1);
    assert_eq!(reg.terminate("5"), Some(50));
}
