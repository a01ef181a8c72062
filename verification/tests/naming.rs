use experiments::applicant_type::NeatNetworkApplicantType;
use experiments::decimal::decimal_string;
use experiments::hashing::{applicant_object_id, candles_store_key, hash_md5, result_object_id};

const ALL: [NeatNetworkApplicantType; 6] = [
    NeatNetworkApplicantType::Unknown,
    NeatNetworkApplicantType::Float,
    NeatNetworkApplicantType::Matrix,
    NeatNetworkApplicantType::Steps,
    NeatNetworkApplicantType::StepsIterate,
    NeatNetworkApplicantType::StepsIterateBack,
];

#[test]
fn applicant_type_texts() {
    assert_eq!(NeatNetworkApplicantType::Float.to_string(), "float");
    assert_eq!(NeatNetworkApplicantType::Matrix.to_string(), "matrix");
    assert_eq!(NeatNetworkApplicantType::Steps.to_string(), "steps");
    assert_eq!(NeatNetworkApplicantType::StepsIterate.to_string(), "stepsIterate");
    assert_eq!(
        NeatNetworkApplicantType::StepsIterateBack.to_string(),
        "stepsIterateBack"
    );
    assert_eq!(NeatNetworkApplicantType::Unknown.to_string(), "unknown");
}

#[test]
fn applicant_type_default_is_unknown() {
    assert_eq!(
        NeatNetworkApplicantType::default(),
        NeatNetworkApplicantType::Unknown
    );
}

#[test]
fn applicant_type_read_ignores_case() {
    assert_eq!(
        NeatNetworkApplicantType::from("Float".to_string()),
        NeatNetworkApplicantType::Float
    );
    assert_eq!(
        NeatNetworkApplicantType::from("MATRIX".to_string()),
        NeatNetworkApplicantType::Matrix
    );
    assert_eq!(
        NeatNetworkApplicantType::from("StepsIterateBack".to_string()),
        NeatNetworkApplicantType::StepsIterateBack
    );
    assert_eq!(
        NeatNetworkApplicantType::from("stepsiterate".to_string()),
        NeatNetworkApplicantType::StepsIterate
    );
}

#[test]
fn applicant_type_unknown_texts() {
    assert_eq!(
        NeatNetworkApplicantType::from("".to_string()),
        NeatNetworkApplicantType::Unknown
    );
    assert_eq!(
        NeatNetworkApplicantType::from("floats".to_string()),
        NeatNetworkApplicantType::Unknown
    );
    assert_eq!(
        NeatNetworkApplicantType::from(" steps".to_string()),
        NeatNetworkApplicantType::Unknown
    );
    assert_eq!(
        NeatNetworkApplicantType::from("STEPS-ITERATE".to_string()),
        NeatNetworkApplicantType::Unknown
    );
}

#[test]
fn applicant_type_non_ascii_text() {
    assert_eq!(
        NeatNetworkApplicantType::from("ÜBER".to_string()),
        NeatNetworkApplicantType::Unknown
    );
}

#[test]
fn applicant_type_round_trip() {
    for t in ALL {
        assert_eq!(NeatNetworkApplicantType::from(t.to_string()), t);
    }
}

#[test]
fn applicant_type_from_lowercase_is_exact() {
    assert_eq!(
        NeatNetworkApplicantType::from_lowercase("stepsiterateback"),
        NeatNetworkApplicantType::StepsIterateBack
    );
    assert_eq!(
        NeatNetworkApplicantType::from_lowercase("Float"),
        NeatNetworkApplicantType::Unknown
    );
}

#[test]
fn decimal_strings() {
    assert_eq!(decimal_string(0), "0");
    assert_eq!(decimal_string(7), "7");
    assert_eq!(decimal_string(10), "10");
    assert_eq!(decimal_string(1_660_003_200), "1660003200");
    assert_eq!(decimal_string(u64::MAX), "18446744073709551615");
}

#[test]
fn decimal_round_trip() {
    for n in [0u64, 1, 9, 10, 99, 100, 12345, u64::MAX] {
        assert_eq!(decimal_string(n).parse::<u64>().unwrap(), n);
    }
}

#[test]
fn md5_known_values() {
    assert_eq!(hash_md5("test"), "098f6bcd4621d373cade4e832627b4f6");
    assert_eq!(hash_md5(""), "d41d8cd98f00b204e9800998ecf8427e");
    assert_eq!(hash_md5("test").len(), 32);
}

#[test]
fn result_id_hashes_network_and_applicant() {
    assert_eq!(result_object_id("net", "app"), hash_md5("net:app"));
    assert_ne!(result_object_id("net", "app"), hash_md5("netapp"));
}

#[test]
fn applicant_id_hashes_all_fields() {
    assert_eq!(
        applicant_object_id("XRPUSDT", 1, 2, 3, 4, NeatNetworkApplicantType::Float),
        hash_md5("XRPUSDT:1:2:3:4:float")
    );
    assert_eq!(
        applicant_object_id(
            "BTCUSDT",
            1_659_312_000,
            1_660_262_400,
            180,
            2,
            NeatNetworkApplicantType::StepsIterate
        ),
        hash_md5("BTCUSDT:1659312000:1660262400:180:2:stepsIterate")
    );
}

#[test]
fn applicant_ids_differ_by_kind() {
    let mut ids = vec![];
    for t in ALL {
        ids.push(applicant_object_id("XRPUSDT", 1, 2, 3, 4, t));
    }
    for i in 0..ids.len() {
        for j in 0..ids.len() {
            if i != j {
                assert_ne!(ids[i], ids[j]);
            }
        }
    }
}

#[test]
fn candles_key_text() {
    assert_eq!(
        candles_store_key(1_660_003_200, "XRPUSDT", 5, 12, "abc"),
        "1660003200:XRPUSDT:5:12:abc"
    );
    assert_eq!(candles_store_key(0, "", 0, 0, ""), "0::0:0:");
}
