use pykep_core::ephemeris::names::{
    jpl_lp_body_index, jpl_lp_supported_bodies, vsop2013_planet_index, vsop2013_supported_bodies,
};
use pykep_core::PykepError;

#[test]
fn jpl_lp_names_are_matched_ignoring_ascii_case() {
    let bodies = jpl_lp_supported_bodies();
    assert_eq!(
        bodies,
        ["mercury", "venus", "earth", "mars", "jupiter", "saturn", "uranus", "neptune"]
    );
    assert_eq!(jpl_lp_body_index("nePTUne"), Ok(7));
    assert_eq!(jpl_lp_body_index("EARTH"), Ok(2));
    for (index, name) in bodies.iter().enumerate() {
        assert_eq!(jpl_lp_body_index(name), Ok(index));
    }
    let unsupported = PykepError::InvalidInput {
        parameter: "name",
        reason: "supported names are mercury, venus, earth, mars, jupiter, saturn, uranus, and neptune".to_owned(),
    };
    for name in ["pluto", "", "earth ", "earth_moon", "mercurý", "MERCURY\u{301}"] {
        assert_eq!(jpl_lp_body_index(name), Err(unsupported.clone()), "{name}");
    }
}

#[test]
fn vsop2013_names_give_planet_numbers() {
    let bodies = vsop2013_supported_bodies();
    assert_eq!(bodies.len(), 9);
    assert_eq!(bodies[2], "earth_moon");
    for (index, name) in bodies.iter().enumerate() {
        assert_eq!(vsop2013_planet_index(name), Ok(index as u8 + 1));
        assert_eq!(vsop2013_planet_index(&name.to_uppercase()), Ok(index as u8 + 1));
    }
    assert_eq!(vsop2013_planet_index("Pluto"), Ok(9));
    assert_eq!(
        vsop2013_planet_index("earth"),
        Err(PykepError::InvalidInput {
            parameter: "name",
            reason: "supported names are mercury, venus, earth_moon, mars, jupiter, saturn, uranus, neptune, and pluto".to_owned(),
        })
    );
}
