use vcard_json::driver::parse_vcard_file;

const VCARDS: &str = r#"BEGIN:VCARD
VERSION:3.0
N:Doe;John;;;
FN:John Doe
EMAIL;type=INTERNET;type=WORK;type=pref:johnDoe@example.org
TEL;type=WORK;type=pref:+1 617 555 1212
TEL;type=WORK:+1 (617) 555-1234
TEL;type=CELL:+1 781 555 1212
TEL;type=HOME:+1 202 555 1212
X-ABUID:5AD380FD-B2DE-4261-BA99-DE1D1DB52FBE\:ABPerson
item1.ADR;type=WORK:;;2 Enterprise Avenue;Worktown;NY;01111;USA
item2.ADR;type=HOME;type=pref:;;3 Acacia Avenue;Hoemtown;MA;02222;USA
ORG:Example.com Inc.;
item4.X-ABLabel:FOAF
TITLE:Imaginary test person
item5.X-ABRELATEDNAMES;type=pref:Jane Doe
NOTE:John Doe has a long and varied history\, being documented on more police files that anyone else. Reports of his death are alas numerous.
CATEGORIES:Work,Test group
item5.X-ABLabel:_$!<Friend>!$_
item3.X-ABLabel:_$!<HomePage>!$_
item4.URL:http\://www.example.com/Joe/foaf.df
item3.URL;type=pref:http\://www.example/com/doe
item1.X-ABADR:us
item2.X-ABADR:us
END:VCARD
BEGIN:VCARD
VERSION:3.0
FN:John Examplara
N:Examplara;John;;;
BDAY:19910101
EMAIL;type=INTERNET;type=WORK:john@example.com
TEL;type=HOME:00 31 6 12345678
item1.ADR:;;Randomstreet 31;Amsterdam;;1234 AB;NL;Randomstreet 31\n1234 ABAmsterdam\nNL
item2.ORG:ACME inc.
item3.TITLE:Chief of Staff
NOTE:Really cool guy
CATEGORIES:myContacts
END:VCARD
"#;

const EXPECTED: &str = r#"[
  {
    "https://atomicdata.dev/properties/emailAddresses": [
      {
        "https://atomicdata.dev/properties/description": "TYPE=INTERNET,TYPE=WORK,TYPE=pref,",
        "https://atomicdata.dev/properties/emailAddress": "johnDoe@example.org",
        "https://atomicdata.dev/properties/isA": [
          "https://atomicdata.dev/classes/EmailAddress"
        ]
      }
    ],
    "https://atomicdata.dev/properties/isA": [
      "https://atomicdata.dev/classes/Person"
    ],
    "https://atomicdata.dev/properties/localId": "3.0John Doe",
    "https://atomicdata.dev/properties/name": "John Doe",
    "https://atomicdata.dev/properties/phoneNumbers": [
      {
        "https://atomicdata.dev/properties/description": "TYPE=WORK,TYPE=pref,",
        "https://atomicdata.dev/properties/isA": [
          "https://atomicdata.dev/classes/PhoneNumber"
        ],
        "https://atomicdata.dev/properties/phoneNumber": "+1 617 555 1212"
      },
      {
        "https://atomicdata.dev/properties/description": "TYPE=WORK,",
        "https://atomicdata.dev/properties/isA": [
          "https://atomicdata.dev/classes/PhoneNumber"
        ],
        "https://atomicdata.dev/properties/phoneNumber": "+1 (617) 555-1234"
      },
      {
        "https://atomicdata.dev/properties/description": "TYPE=CELL,",
        "https://atomicdata.dev/properties/isA": [
          "https://atomicdata.dev/classes/PhoneNumber"
        ],
        "https://atomicdata.dev/properties/phoneNumber": "+1 781 555 1212"
      },
      {
        "https://atomicdata.dev/properties/description": "TYPE=HOME,",
        "https://atomicdata.dev/properties/isA": [
          "https://atomicdata.dev/classes/PhoneNumber"
        ],
        "https://atomicdata.dev/properties/phoneNumber": "+1 202 555 1212"
      }
    ],
    "https://atomicdata.dev/properties/vCardUnknowns": [
      {
        "https://atomicdata.dev/properties/atom/value": "5AD380FD-B2DE-4261-BA99-DE1D1DB52FBE\\:ABPerson",
        "https://atomicdata.dev/properties/isA": [
          "https://atomicdata.dev/classes/VCardUnknown"
        ],
        "https://atomicdata.dev/properties/key": "X-ABUID"
      },
      {
        "https://atomicdata.dev/properties/atom/value": ";;2 Enterprise Avenue;Worktown;NY;01111;USA",
        "https://atomicdata.dev/properties/description": "TYPE=WORK,",
        "https://atomicdata.dev/properties/isA": [
          "https://atomicdata.dev/classes/VCardUnknown"
        ],
        "https://atomicdata.dev/properties/key": "item1.ADR"
      },
      {
        "https://atomicdata.dev/properties/atom/value": ";;3 Acacia Avenue;Hoemtown;MA;02222;USA",
        "https://atomicdata.dev/properties/description": "TYPE=HOME,TYPE=pref,",
        "https://atomicdata.dev/properties/isA": [
          "https://atomicdata.dev/classes/VCardUnknown"
        ],
        "https://atomicdata.dev/properties/key": "item2.ADR"
      },
      {
        "https://atomicdata.dev/properties/atom/value": "Example.com Inc.;",
        "https://atomicdata.dev/properties/isA": [
          "https://atomicdata.dev/classes/VCardUnknown"
        ],
        "https://atomicdata.dev/properties/key": "ORG"
      },
      {
        "https://atomicdata.dev/properties/atom/value": "FOAF",
        "https://atomicdata.dev/properties/isA": [
          "https://atomicdata.dev/classes/VCardUnknown"
        ],
        "https://atomicdata.dev/properties/key": "item4.X-ABLabel"
      },
      {
        "https://atomicdata.dev/properties/atom/value": "Imaginary test person",
        "https://atomicdata.dev/properties/isA": [
          "https://atomicdata.dev/classes/VCardUnknown"
        ],
        "https://atomicdata.dev/properties/key": "TITLE"
      },
      {
        "https://atomicdata.dev/properties/atom/value": "Jane Doe",
        "https://atomicdata.dev/properties/description": "TYPE=pref,",
        "https://atomicdata.dev/properties/isA": [
          "https://atomicdata.dev/classes/VCardUnknown"
        ],
        "https://atomicdata.dev/properties/key": "item5.X-ABRELATEDNAMES"
      },
      {
        "https://atomicdata.dev/properties/atom/value": "John Doe has a long and varied history\\, being documented on more police files that anyone else. Reports of his death are alas numerous.",
        "https://atomicdata.dev/properties/isA": [
          "https://atomicdata.dev/classes/VCardUnknown"
        ],
        "https://atomicdata.dev/properties/key": "NOTE"
      },
      {
        "https://atomicdata.dev/properties/atom/value": "Work,Test group",
        "https://atomicdata.dev/properties/isA": [
          "https://atomicdata.dev/classes/VCardUnknown"
        ],
        "https://atomicdata.dev/properties/key": "CATEGORIES"
      },
      {
        "https://atomicdata.dev/properties/atom/value": "_$!<Friend>!$_",
        "https://atomicdata.dev/properties/isA": [
          "https://atomicdata.dev/classes/VCardUnknown"
        ],
        "https://atomicdata.dev/properties/key": "item5.X-ABLabel"
      },
      {
        "https://atomicdata.dev/properties/atom/value": "_$!<HomePage>!$_",
        "https://atomicdata.dev/properties/isA": [
          "https://atomicdata.dev/classes/VCardUnknown"
        ],
        "https://atomicdata.dev/properties/key": "item3.X-ABLabel"
      },
      {
        "https://atomicdata.dev/properties/atom/value": "http\\://www.example.com/Joe/foaf.df",
        "https://atomicdata.dev/properties/isA": [
          "https://atomicdata.dev/classes/VCardUnknown"
        ],
        "https://atomicdata.dev/properties/key": "item4.URL"
      },
      {
        "https://atomicdata.dev/properties/atom/value": "http\\://www.example/com/doe",
        "https://atomicdata.dev/properties/description": "TYPE=pref,",
        "https://atomicdata.dev/properties/isA": [
          "https://atomicdata.dev/classes/VCardUnknown"
        ],
        "https://atomicdata.dev/properties/key": "item3.URL"
      },
      {
        "https://atomicdata.dev/properties/atom/value": "us",
        "https://atomicdata.dev/properties/isA": [
          "https://atomicdata.dev/classes/VCardUnknown"
        ],
        "https://atomicdata.dev/properties/key": "item1.X-ABADR"
      },
      {
        "https://atomicdata.dev/properties/atom/value": "us",
        "https://atomicdata.dev/properties/isA": [
          "https://atomicdata.dev/classes/VCardUnknown"
        ],
        "https://atomicdata.dev/properties/key": "item2.X-ABADR"
      }
    ]
  },
  {
    "https://atomicdata.dev/properties/birthdate": "19910101",
    "https://atomicdata.dev/properties/emailAddresses": [
      {
        "https://atomicdata.dev/properties/description": "TYPE=INTERNET,TYPE=WORK,",
        "https://atomicdata.dev/properties/emailAddress": "john@example.com",
        "https://atomicdata.dev/properties/isA": [
          "https://atomicdata.dev/classes/EmailAddress"
        ]
      }
    ],
    "https://atomicdata.dev/properties/isA": [
      "https://atomicdata.dev/classes/Person"
    ],
    "https://atomicdata.dev/properties/localId": "3.0John Examplara",
    "https://atomicdata.dev/properties/name": "John Examplara",
    "https://atomicdata.dev/properties/phoneNumbers": [
      {
        "https://atomicdata.dev/properties/description": "TYPE=HOME,",
        "https://atomicdata.dev/properties/isA": [
          "https://atomicdata.dev/classes/PhoneNumber"
        ],
        "https://atomicdata.dev/properties/phoneNumber": "00 31 6 12345678"
      }
    ],
    "https://atomicdata.dev/properties/vCardUnknowns": [
      {
        "https://atomicdata.dev/properties/atom/value": ";;Randomstreet 31;Amsterdam;;1234 AB;NL;Randomstreet 31\\n1234 ABAmsterdam\\nNL",
        "https://atomicdata.dev/properties/isA": [
          "https://atomicdata.dev/classes/VCardUnknown"
        ],
        "https://atomicdata.dev/properties/key": "item1.ADR"
      },
      {
        "https://atomicdata.dev/properties/atom/value": "ACME inc.",
        "https://atomicdata.dev/properties/isA": [
          "https://atomicdata.dev/classes/VCardUnknown"
        ],
        "https://atomicdata.dev/properties/key": "item2.ORG"
      },
      {
        "https://atomicdata.dev/properties/atom/value": "Chief of Staff",
        "https://atomicdata.dev/properties/isA": [
          "https://atomicdata.dev/classes/VCardUnknown"
        ],
        "https://atomicdata.dev/properties/key": "item3.TITLE"
      },
      {
        "https://atomicdata.dev/properties/atom/value": "Really cool guy",
        "https://atomicdata.dev/properties/isA": [
          "https://atomicdata.dev/classes/VCardUnknown"
        ],
        "https://atomicdata.dev/properties/key": "NOTE"
      },
      {
        "https://atomicdata.dev/properties/atom/value": "myContacts",
        "https://atomicdata.dev/properties/isA": [
          "https://atomicdata.dev/classes/VCardUnknown"
        ],
        "https://atomicdata.dev/properties/key": "CATEGORIES"
      }
    ]
  }
]"#;

#[test]
fn parse_vcard() {
    let output = parse_vcard_file(VCARDS.as_bytes()).unwrap().records;
    let expected: serde_json::Value = serde_json::from_str(&EXPECTED).unwrap();
    assert_eq!(output, expected);
}
