use rgitui_git::paths::normalize_repo_path;

#[test]
fn normalize_non_unc_path_unchanged() {
    let path = "/home/user/repo";
    assert_eq!(normalize_repo_path(path, true), path);
}

#[test]
fn normalize_relative_path_unchanged() {
    let path = "./my-repo";
    assert_eq!(normalize_repo_path(path, true), path);
}

#[test]
fn normalize_wsl_localhost_unc_path() {
    let input = r"\\wsl.localhost\archlinux\home\user\repo";
    let expected = "//wsl.localhost/archlinux/home/user/repo";
    assert_eq!(normalize_repo_path(input, true), expected);
}

#[test]
fn normalize_wsl_dollar_unc_path() {
    let input = r"\\wsl$\Ubuntu\home\user\project";
    let expected = "//wsl$/Ubuntu/home/user/project";
    assert_eq!(normalize_repo_path(input, true), expected);
}

#[test]
fn normalize_windows_drive_path_unchanged() {
    let path = r"C:\Users\user\repo";
    assert_eq!(normalize_repo_path(path, true), path);
}

#[test]
fn normalize_network_share_unc_path() {
    let input = r"\\server\share\project";
    let expected = "//server/share/project";
    assert_eq!(normalize_repo_path(input, true), expected);
}

#[test]
fn normalize_extended_length_prefix_unchanged() {
    let path = r"\\?\C:\Users\user\repo";
    assert_eq!(normalize_repo_path(path, true), path);
}

#[test]
fn normalize_device_namespace_prefix_unchanged() {
    let path = r"\\.\C:\Users\user\repo";
    assert_eq!(normalize_repo_path(path, true), path);
}

#[test]
fn normalize_leaves_unc_paths_alone_off_windows() {
    let path = r"\\server\share\project";
    assert_eq!(normalize_repo_path(path, false), path);
    assert_eq!(normalize_repo_path("/home/user/repo", false), "/home/user/repo");
}
