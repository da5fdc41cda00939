use miniutils::UtilError;
use miniutils::cmds::CpPlan;
use miniutils::cmds::LnPlan;
use miniutils::cmds::LsPlan;
use miniutils::cmds::PathKind;
use miniutils::cmds::RmAction;
use miniutils::cmds::RmMode;
use miniutils::cmds::RmPlan;
use miniutils::cmds::TouchAction;
use miniutils::cmds::base_name;
use miniutils::cmds::chmod_args_ok;
use miniutils::cmds::cp_plan;
use miniutils::cmds::echo_output;
use miniutils::cmds::join_path;
use miniutils::cmds::ln_plan;
use miniutils::cmds::ls_plan;
use miniutils::cmds::rm_action;
use miniutils::cmds::rm_plan;
use miniutils::cmds::touch_plan;
use miniutils::cmds::touch_probe;

fn argv(parts: &[&str]) -> Vec<String> {
    let mut v = vec!["prog".to_string()];
    v.extend(parts.iter().map(|s| s.to_string()));
    v
}

#[test]
fn echo_joins_words_with_spaces_and_newline() {
    assert_eq!(echo_output(&argv(&["echo", "hi", "there", "you"])), Ok("hi there you\n".to_string()));
}

#[test]
fn echo_single_word() {
    assert_eq!(echo_output(&argv(&["echo", "hi"])), Ok("hi\n".to_string()));
}

#[test]
fn echo_dash_n_withholds_newline() {
    assert_eq!(echo_output(&argv(&["echo", "-n", "a", "b"])), Ok("a b".to_string()));
}

#[test]
fn echo_without_words_is_refused() {
    assert_eq!(echo_output(&argv(&["echo"])), Err(UtilError::Validation));
    assert_eq!(echo_output(&argv(&["echo", "-n"])), Err(UtilError::Validation));
}

#[test]
fn rm_plain_and_flag_combinations() {
    assert_eq!(rm_plan(&argv(&["rm", "f"])), Ok(RmPlan { mode: RmMode::Plain, start: 2 }));
    assert_eq!(rm_plan(&argv(&["rm", "-d", "d1"])), Ok(RmPlan { mode: RmMode::DirOnly, start: 3 }));
    assert_eq!(
        rm_plan(&argv(&["rm", "-d", "-r", "d1"])),
        Ok(RmPlan { mode: RmMode::DirRecursive, start: 4 })
    );
    assert_eq!(
        rm_plan(&argv(&["rm", "-r", "--dir", "d1"])),
        Ok(RmPlan { mode: RmMode::DirRecursive, start: 4 })
    );
    assert_eq!(
        rm_plan(&argv(&["rm", "--recursive", "d1"])),
        Ok(RmPlan { mode: RmMode::Recursive, start: 3 })
    );
    assert_eq!(rm_plan(&argv(&["rm"])), Err(UtilError::Validation));
    assert_eq!(rm_plan(&argv(&["rm", "-d"])), Err(UtilError::Validation));
    assert_eq!(rm_plan(&argv(&["rm", "-r"])), Err(UtilError::Validation));
}

#[test]
fn rm_actions_follow_mode_and_kind() {
    assert_eq!(rm_action(RmMode::Plain, PathKind::IsFile), RmAction::RemoveFile);
    assert_eq!(rm_action(RmMode::Plain, PathKind::IsDir), RmAction::FlagInvalid);
    assert_eq!(rm_action(RmMode::DirOnly, PathKind::IsDir), RmAction::RemoveDir);
    assert_eq!(rm_action(RmMode::DirOnly, PathKind::Absent), RmAction::RemoveDir);
    assert_eq!(rm_action(RmMode::Recursive, PathKind::IsDir), RmAction::RemoveDirAll);
    assert_eq!(rm_action(RmMode::Recursive, PathKind::Absent), RmAction::SkipSilent);
    assert_eq!(rm_action(RmMode::DirRecursive, PathKind::IsDir), RmAction::RemoveDirAll);
    assert_eq!(rm_action(RmMode::DirRecursive, PathKind::IsFile), RmAction::RemoveFile);
}

#[test]
fn touch_probe_names_the_deciding_argument() {
    assert_eq!(touch_probe(&argv(&["touch", "f"])), Some(2));
    assert_eq!(touch_probe(&argv(&["touch", "-a", "f"])), Some(3));
    assert_eq!(touch_probe(&argv(&["touch", "-c", "-a", "f"])), Some(4));
    assert_eq!(touch_probe(&argv(&["touch"])), None);
}

#[test]
fn touch_decisions() {
    assert_eq!(touch_plan(&argv(&["touch", "f"]), false), Ok(TouchAction::Create(2)));
    assert_eq!(touch_plan(&argv(&["touch", "f"]), true), Ok(TouchAction::TruncateAndRead(2)));
    assert_eq!(touch_plan(&argv(&["touch", "-a", "f"]), true), Ok(TouchAction::ReadOnly(3)));
    assert_eq!(touch_plan(&argv(&["touch", "-m", "f"]), true), Ok(TouchAction::Rewrite(3)));
    assert_eq!(touch_plan(&argv(&["touch", "-c", "f"]), true), Ok(TouchAction::Create(3)));
    assert_eq!(touch_plan(&argv(&["touch", "-c", "f"]), false), Ok(TouchAction::Noop));
    assert_eq!(touch_plan(&argv(&["touch", "-z", "f"]), true), Err(UtilError::Validation));
    assert_eq!(touch_plan(&argv(&["touch"]), false), Err(UtilError::Validation));
    assert_eq!(touch_plan(&argv(&["touch", "-c", "-a", "f"]), true), Ok(TouchAction::Create(3)));
    assert_eq!(touch_plan(&argv(&["touch", "-m", "--no-create", "f"]), true), Ok(TouchAction::Create(3)));
    assert_eq!(touch_plan(&argv(&["touch", "-c", "-a", "f"]), false), Ok(TouchAction::Noop));
    assert_eq!(touch_plan(&argv(&["touch", "x", "y", "f"]), true), Ok(TouchAction::Noop));
}

#[test]
fn ln_reads_its_operands() {
    assert_eq!(
        ln_plan(&argv(&["ln", "-s", "t", "l"])),
        Ok(LnPlan::Symlink { target: 3, link: 4 })
    );
    assert_eq!(
        ln_plan(&argv(&["ln", "--symbolic", "t", "l"])),
        Ok(LnPlan::Symlink { target: 3, link: 4 })
    );
    assert_eq!(ln_plan(&argv(&["ln", "t", "l"])), Ok(LnPlan::HardLink { target: 2, link: 3 }));
    assert_eq!(ln_plan(&argv(&["ln", "-x", "t", "l"])), Err(UtilError::Validation));
    assert_eq!(ln_plan(&argv(&["ln"])), Err(UtilError::Validation));
    assert_eq!(ln_plan(&argv(&["ln", "-s", "t"])), Err(UtilError::Validation));
    assert_eq!(ln_plan(&argv(&["ln", "t"])), Err(UtilError::Validation));
}

#[test]
fn ls_reads_its_flags() {
    assert_eq!(ls_plan(&argv(&["ls"])), LsPlan::CurrentPlain);
    assert_eq!(ls_plan(&argv(&["ls", "-a"])), LsPlan::CurrentAll);
    assert_eq!(ls_plan(&argv(&["ls", "--all"])), LsPlan::CurrentAll);
    assert_eq!(ls_plan(&argv(&["ls", "p"])), LsPlan::PathMaybeFile { index: 2 });
    assert_eq!(ls_plan(&argv(&["ls", "-a", "p"])), LsPlan::PathAll { index: 3 });
    assert_eq!(ls_plan(&argv(&["ls", "-R", "p"])), LsPlan::TreePlain { index: 3 });
    assert_eq!(ls_plan(&argv(&["ls", "-x", "p"])), LsPlan::Nothing);
    assert_eq!(ls_plan(&argv(&["ls", "-a", "-R", "p"])), LsPlan::TreeAll { index: 4 });
    assert_eq!(ls_plan(&argv(&["ls", "-r", "--all", "p"])), LsPlan::TreeAll { index: 4 });
    assert_eq!(ls_plan(&argv(&["ls", "-r", "-R", "p"])), LsPlan::Nothing);
}

#[test]
fn cp_reads_its_operands() {
    assert_eq!(cp_plan(&argv(&["cp", "a", "b"])), Ok(CpPlan::Single { src: 2, dest: 3 }));
    assert_eq!(
        cp_plan(&argv(&["cp", "-r", "a", "b"])),
        Ok(CpPlan::Recursive { src: 3, dest: 4 })
    );
    assert_eq!(cp_plan(&argv(&["cp"])), Err(UtilError::Validation));
    assert_eq!(cp_plan(&argv(&["cp", "-r", "a"])), Err(UtilError::Validation));
    assert_eq!(cp_plan(&argv(&["cp", "a"])), Err(UtilError::Validation));
}

#[test]
fn base_name_takes_the_last_component() {
    assert_eq!(base_name("a/b/c.txt"), Some("c.txt".to_string()));
    assert_eq!(base_name("plain"), Some("plain".to_string()));
    assert_eq!(base_name("dir/"), Some("dir".to_string()));
    assert_eq!(base_name("dir///"), Some("dir".to_string()));
}

#[test]
fn base_name_of_root_or_empty_is_none() {
    assert_eq!(base_name(""), None);
    assert_eq!(base_name("/"), None);
    assert_eq!(base_name("///"), None);
    assert_eq!(base_name(".."), None);
    assert_eq!(base_name("a/.."), None);
    assert_eq!(base_name("."), None);
}

#[test]
fn cp_single_target_joins_under_directories() {
    assert_eq!(
        miniutils::cmds::cp_single_target("s/a.txt", "d", true),
        Ok("d/a.txt".to_string())
    );
    assert_eq!(
        miniutils::cmds::cp_single_target("s/a.txt", "out.txt", false),
        Ok("out.txt".to_string())
    );
    assert_eq!(
        miniutils::cmds::cp_single_target("/", "d", true),
        Err(UtilError::Validation)
    );
}

#[test]
fn join_path_inserts_one_slash() {
    assert_eq!(join_path("d", "f.txt"), "d/f.txt".to_string());
}

#[test]
fn chmod_argument_shapes() {
    assert!(chmod_args_ok(&argv(&["chmod", "u+x", "f"])));
    assert!(!chmod_args_ok(&argv(&["chmod", "u+x"])));
    assert!(!chmod_args_ok(&argv(&["chmod", "-R", "f"])));
}
