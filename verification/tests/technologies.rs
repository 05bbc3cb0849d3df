use hoi4ms::technologies::{
    add_source, delete_source, parse, update_source, TechFolder, TechPath, Technology,
    TechnologyFile, TechnologyUpdate,
};

const FILE: &str = "technologies = {\n\n\t@1918 = 0\n\t@1936 = 2\n\n\tinfantry_weapons = {\n\n\t\tenable_equipments = {\n\t\t\tinfantry_equipment_0\n\t\t}\n\n\t\tpath = {\n\t\t\tleads_to_tech = infantry_weapons1\n\t\t\tresearch_cost_coeff = 1\n\t\t}\n\n\t\tresearch_cost = 1.5\n\t\tstart_year = 1918\n\t\tfolder = {\n\t\t\tname = infantry_folder\n\t\t\tposition = { x = 0 y = @1918 } # top row\n\t\t}\n\n\t\tcategories = {\n\t\t\tinfantry_weapons\n\t\t}\n\n\t\tai_will_do = {\n\t\t\tfactor = 1\n\t\t}\n\t}\n\n\tmobile_warfare = {\n\t\tdoctrine_name = \"MOBILE_WARFARE_DOCTRINE\"\n\t\txp_research_type = army\n\t\txor = { superior_firepower trench_warfare }\n\t\tpath = {\n\t\t\tleads_to_tech = delay\n\t\t\tresearch_cost_coeff = 1\n\t\t}\n\t\tcategory_all_armor = {\n\t\t\tbreakthrough = 0.20 # punch\n\t\t}\n\t\tplanning_speed = 0.5\n\t\tdoctrine = yes\n\t\tresearch_cost = 2.25\n\t\tfolder = {\n\t\t\tname = land_doctrine_folder\n\t\t\tposition = { x = 0 y = 0 }\n\t\t}\n\t\tcategories = {\n\t\t\tland_doctrine\n\t\t\tcat_mobile_warfare\n\t\t}\n\t}\n}\n";

fn parsed(source: &str) -> TechnologyFile {
    parse("(test)", source, false, false).expect("parses")
}

fn update_from(tech: &Technology) -> TechnologyUpdate {
    TechnologyUpdate {
        id: tech.id.clone(),
        research_cost: tech.research_cost.clone(),
        start_year: tech.start_year.clone(),
        doctrine: tech.doctrine.clone(),
        doctrine_name: tech.doctrine_name.clone(),
        xp_research_type: tech.xp_research_type.clone(),
        xp_research_cost: tech.xp_research_cost.clone(),
        xp_research_bonus: tech.xp_research_bonus.clone(),
        folders: tech.folders.clone(),
        paths: tech.paths.clone(),
        categories: tech.categories.clone(),
        xor: tech.xor.clone(),
        sub_technologies: tech.sub_technologies.clone(),
        enable_equipments: tech.enable_equipments.clone(),
        enable_equipment_modules: tech.enable_equipment_modules.clone(),
        enable_subunits: tech.enable_subunits.clone(),
        allow: tech.allow.clone(),
        allow_branch: tech.allow_branch.clone(),
        on_research_complete: tech.on_research_complete.clone(),
        ai_will_do: tech.ai_will_do.clone(),
        ai_research_weights: tech.ai_research_weights.clone(),
    }
}

#[test]
fn reads_variables_folders_paths_and_effects() {
    let file = parsed(FILE);
    assert_eq!(file.variables.len(), 2);
    assert_eq!(file.variables[1].name, "1936");
    assert_eq!(file.variables[1].value, "2");
    assert_eq!(file.technologies.len(), 2);

    let rifles = &file.technologies[0];
    assert_eq!(rifles.id, "infantry_weapons");
    assert_eq!(rifles.line, 6);
    assert_eq!(rifles.research_cost, "1.5");
    assert_eq!(rifles.start_year, "1918");
    assert_eq!(rifles.enable_equipments, vec!["infantry_equipment_0"]);
    assert_eq!(rifles.paths.len(), 1);
    assert_eq!(rifles.paths[0].leads_to_tech, "infantry_weapons1");
    assert_eq!(rifles.folders.len(), 1);
    assert_eq!(rifles.folders[0].name, "infantry_folder");
    assert_eq!(rifles.folders[0].x, "0");
    assert_eq!(rifles.folders[0].y, "@1918");
    assert_eq!(rifles.categories, vec!["infantry_weapons"]);
    assert_eq!(rifles.ai_will_do, "factor = 1");
    assert_eq!(rifles.effects, "");

    let doctrine = &file.technologies[1];
    assert_eq!(doctrine.doctrine, "yes");
    assert_eq!(doctrine.doctrine_name, "MOBILE_WARFARE_DOCTRINE");
    assert_eq!(doctrine.xor, vec!["superior_firepower", "trench_warfare"]);
    assert_eq!(
        doctrine.effects,
        "category_all_armor = {\n\tbreakthrough = 0.20 # punch\n}\nplanning_speed = 0.5"
    );
}

#[test]
fn technologies_a_no_op_save_changes_nothing() {
    let file = parsed(FILE);
    for tech in &file.technologies {
        let text =
            update_source("(test)", FILE, &tech.id, &update_from(tech)).expect("updates");
        assert_eq!(text, FILE, "{} was rewritten", tech.id);
    }
}

#[test]
fn moves_a_technology_and_keeps_the_rest() {
    let file = parsed(FILE);
    let mut change = update_from(&file.technologies[0]);
    change.folders[0].x = "2".into();
    change.folders[0].y = "@1936".into();
    change.research_cost = "2".into();
    change.paths[0].research_cost_coeff = "0.9".into();

    let text = update_source("(test)", FILE, "infantry_weapons", &change).expect("updates");

    assert!(
        text.contains("position = { x = 2 y = @1936 } # top row"),
        "{text}"
    );
    assert!(text.contains("\t\tresearch_cost = 2\n"), "{text}");
    assert!(text.contains("research_cost_coeff = 0.9"), "{text}");
    assert!(
        text.contains("breakthrough = 0.20 # punch"),
        "effects touched:\n{text}"
    );
    assert!(text.contains("\t@1936 = 2\n"), "{text}");
}

#[test]
fn folders_and_paths_are_keyed() {
    let file = parsed(FILE);
    let mut change = update_from(&file.technologies[0]);
    change.folders.push(TechFolder {
        name: "support_folder".into(),
        x: "-1".into(),
        y: "3".into(),
    });
    change.paths = vec![
        TechPath {
            leads_to_tech: "infantry_weapons2".into(),
            research_cost_coeff: "1".into(),
        },
        TechPath {
            leads_to_tech: "infantry_weapons1".into(),
            research_cost_coeff: "1".into(),
        },
    ];
    change.enable_equipments =
        vec!["infantry_equipment_0".into(), "infantry_equipment_1".into()];
    change.xor = vec!["cavalry".into()];

    let text = update_source("(test)", FILE, "infantry_weapons", &change).expect("updates");
    let rifles = &parsed(&text).technologies[0];
    assert_eq!(rifles.folders.len(), 2);
    assert_eq!(rifles.folders[1].name, "support_folder");
    assert_eq!(rifles.folders[1].x, "-1");
    assert_eq!(rifles.paths.len(), 2);
    // The path already there kept its place; the new one was appended.
    assert_eq!(rifles.paths[0].leads_to_tech, "infantry_weapons1");
    assert_eq!(rifles.paths[1].leads_to_tech, "infantry_weapons2");
    assert_eq!(rifles.enable_equipments.len(), 2);
    assert_eq!(rifles.xor, vec!["cavalry"]);
    assert!(text.contains("\t\tfolder = {\n\t\t\tname = support_folder\n\t\t\tposition = { x = -1 y = 3 }\n\t\t}\n"), "{text}");

    let mut change = update_from(rifles);
    change.folders.remove(0);
    change.paths.remove(0);
    change.xor.clear();
    let text = update_source("(test)", &text, "infantry_weapons", &change).expect("updates");
    let rifles = &parsed(&text).technologies[0];
    assert_eq!(rifles.folders.len(), 1);
    assert_eq!(rifles.folders[0].name, "support_folder");
    assert_eq!(rifles.paths.len(), 1);
    assert_eq!(rifles.paths[0].leads_to_tech, "infantry_weapons2");
    assert!(rifles.xor.is_empty());
}

#[test]
fn renames_the_block_key_and_quotes_the_doctrine_name() {
    let file = parsed(FILE);
    let mut change = update_from(&file.technologies[1]);
    change.id = "mobile_warfare_2".into();
    change.doctrine_name = "MOBILE_WARFARE_DOCTRINE_2".into();

    let text = update_source("(test)", FILE, "mobile_warfare", &change).expect("updates");
    let doctrine = &parsed(&text).technologies[1];
    assert_eq!(doctrine.id, "mobile_warfare_2");
    assert!(
        text.contains("doctrine_name = \"MOBILE_WARFARE_DOCTRINE_2\""),
        "{text}"
    );

    let mut clash = update_from(doctrine);
    clash.id = "infantry_weapons".into();
    assert!(update_source("(test)", &text, "mobile_warfare_2", &clash).is_err());
}

#[test]
fn adds_and_deletes_a_technology() {
    let added = add_source(
        "(test)",
        FILE,
        &TechnologyUpdate {
            id: "infantry_weapons1".into(),
            research_cost: "1.5".into(),
            start_year: "1936".into(),
            folders: vec![TechFolder {
                name: "infantry_folder".into(),
                x: "0".into(),
                y: "@1936".into(),
            }],
            paths: vec![TechPath {
                leads_to_tech: "infantry_weapons2".into(),
                research_cost_coeff: "1".into(),
            }],
            categories: vec!["infantry_weapons".into()],
            enable_equipments: vec!["infantry_equipment_1".into()],
            ai_will_do: "factor = 1".into(),
            ..TechnologyUpdate::default()
        },
    )
    .expect("adds");

    let reread = parsed(&added);
    assert_eq!(reread.technologies.len(), 3);
    let rifles = &reread.technologies[2];
    assert_eq!(rifles.id, "infantry_weapons1");
    assert_eq!(rifles.folders[0].y, "@1936");
    assert!(
        added.contains("# top row"),
        "the rest was disturbed:\n{added}"
    );
    assert!(
        added.contains("\n\tinfantry_weapons1 = {\n\t\tenable_equipments = { infantry_equipment_1 }\n\t\tpath = {\n\t\t\tleads_to_tech = infantry_weapons2\n\t\t\tresearch_cost_coeff = 1\n\t\t}\n\t\tresearch_cost = 1.5\n\t\tstart_year = 1936\n\t\tfolder = {\n\t\t\tname = infantry_folder\n\t\t\tposition = { x = 0 y = @1936 }\n\t\t}\n\t\tcategories = {\n\t\t\tinfantry_weapons\n\t\t}\n\t\tai_will_do = { factor = 1 }\n\t}\n"),
        "{added}"
    );

    let deleted = delete_source("(test)", &added, "mobile_warfare").expect("deletes");
    let reread = parsed(&deleted);
    assert_eq!(reread.technologies.len(), 2);
    assert!(!deleted.contains("mobile_warfare"), "{deleted}");
}

#[test]
fn refuses_bad_input() {
    let file = parsed(FILE);
    let mut change = update_from(&file.technologies[0]);
    change.id = "@1950".into();
    assert!(update_source("(test)", FILE, "infantry_weapons", &change).is_err());

    let mut change = update_from(&file.technologies[0]);
    change.folders[0].name = String::new();
    assert!(update_source("(test)", FILE, "infantry_weapons", &change).is_err());
}
