use phpswitch::activation::{
    alternatives_for, backend_for_distribution, begin, Alternative, Backend, Step,
};

fn request(name: &str, path: &str) -> Alternative {
    Alternative { name: name.to_string(), path: path.to_string() }
}

#[test]
fn linux_asks_for_its_distribution() {
    assert_eq!(begin("linux"), Step::ReadDistribution);
}

#[test]
fn windows_has_a_backend() {
    assert_eq!(begin("windows"), Step::Activate(Backend::Windows));
}

#[test]
fn other_systems_are_not_served() {
    for os in ["macos", "freebsd", "", "Linux", "linux ", "win", "windows10"] {
        assert_eq!(begin(os), Step::Unsupported, "for {:?}", os);
    }
}

#[test]
fn debian_has_a_backend() {
    assert_eq!(backend_for_distribution(Some("debian")), Some(Backend::DebianAlternatives));
}

#[test]
fn other_distributions_are_not_served() {
    assert_eq!(backend_for_distribution(None), None);
    for id in ["ubuntu", "fedora", "", "Debian", "debian11"] {
        assert_eq!(backend_for_distribution(Some(id)), None, "for {:?}", id);
    }
}

#[test]
fn debian_is_asked_for_five_link_groups_in_order() {
    assert_eq!(
        alternatives_for("8.1"),
        vec![
            request("php", "/usr/bin/php8.1"),
            request("phar", "/usr/bin/phah8.1"),
            request("phar.phar", "/usr/bin/phar.phar8.1"),
            request("phpize", "/usr/bin/phpize8.1"),
            request("php-config", "/usr/bin/php-config8.1"),
        ]
    );
}

#[test]
fn debian_paths_end_in_the_version_as_given() {
    let plan = alternatives_for("");
    assert_eq!(plan[0], request("php", "/usr/bin/php"));
    assert_eq!(plan[4], request("php-config", "/usr/bin/php-config"));
    let plan = alternatives_for("7.4 ");
    assert_eq!(plan[3], request("phpize", "/usr/bin/phpize7.4 "));
}
